//! What holds of transactions that are submitted to a node.

use vstd::prelude::*;

use crate::mempool::{tx_put, MemPoolView};
use crate::node::submit::{admitted, trade_waits, SubmitError};
use crate::state::markets::database::MarketsView;
use crate::state::markets::MarketId;
use crate::state::Error;
use crate::types::transaction::AuthorizedTransaction;

verus! {

/// A trade that waits moves the shares that waiting trades leave of its market's
/// outcome by what it names, and nothing else. Where the market does not trade nothing
/// is moved.
pub proof fn waiting_trades_move_waiting_shares(
    markets: MarketsView,
    m: MarketId,
    outcome_index: u32,
    delta: i64,
    valid: bool,
    after: MarketsView,
)
    requires
        trade_waits(markets, m, outcome_index, delta, valid) == Ok::<MarketsView, Error>(after),
    ensures
        markets.markets.dom().contains(m),
        after.markets == markets.markets,
        after.accounts == markets.accounts,
        after.funds == markets.funds,
        !(markets.markets[m].state is Trading) ==> after == markets,
        markets.markets[m].state is Trading ==> {
            let current = if markets.mempool_shares.dom().contains(m) {
                markets.mempool_shares[m]
            } else {
                markets.markets[m].shares
            };
            let o = outcome_index as int;
            &&& valid
            &&& o < current.len()
            &&& after.mempool_shares.dom().contains(m)
            &&& after.mempool_shares[m].len() == current.len()
            &&& after.mempool_shares[m][o] == current[o] + delta
            &&& forall|k: int|
                0 <= k < current.len() && k != o ==> (#[trigger] after.mempool_shares[m][k])
                    == current[k]
            &&& forall|other: MarketId|
                other != m ==> (#[trigger] after.mempool_shares.dom().contains(other)
                    <==> markets.mempool_shares.dom().contains(other))
                    && after.mempool_shares[other] == markets.mempool_shares[other]
        },
{
}

/// A transaction that is admitted is in the pool. A trade among them moves the waiting
/// shares of its market, and another transaction leaves the markets alone.
pub proof fn admitted_transactions_wait(
    markets: MarketsView,
    pool: MemPoolView,
    tx: AuthorizedTransaction,
    valid: bool,
    markets_after: MarketsView,
    pool_after: MemPoolView,
)
    requires
        admitted(markets, pool, tx, valid) == Ok::<(MarketsView, MemPoolView), SubmitError>(
            (markets_after, pool_after),
        ),
    ensures
        pool_after.txs.dom().contains(tx.transaction.id()),
        pool_after.txs[tx.transaction.id()] == tx,
        tx_put(pool, tx) == Ok::<MemPoolView, crate::mempool::Error>(pool_after),
        !(tx.transaction.data is Some && tx.transaction.data->0 is Trade) ==> markets_after
            == markets,
        tx.transaction.data is Some && tx.transaction.data->0 is Trade ==> trade_waits(
            markets,
            tx.transaction.data->0->Trade_market_id,
            tx.transaction.data->0->Trade_outcome_index,
            tx.transaction.data->0->Trade_shares,
            valid,
        ) == Ok::<MarketsView, Error>(markets_after),
{
}

/// What the pool takes is admitted, unless it is a trade that its market refuses.
pub proof fn pooled_transactions_are_admitted(
    markets: MarketsView,
    pool: MemPoolView,
    tx: AuthorizedTransaction,
    valid: bool,
)
    requires
        tx_put(pool, tx) is Ok,
    ensures
        !(tx.transaction.data is Some && tx.transaction.data->0 is Trade) ==> admitted(
            markets,
            pool,
            tx,
            valid,
        ) is Ok,
        tx.transaction.data is Some && tx.transaction.data->0 is Trade && markets.markets.dom().contains(
            tx.transaction.data->0->Trade_market_id,
        ) && !(markets.markets[tx.transaction.data->0->Trade_market_id].state is Trading)
            ==> admitted(markets, pool, tx, valid) is Ok,
{
}

/// Full pools, and pools in which its coins are spent, refuse a transaction.
pub proof fn refused_transactions_are_not_admitted(
    markets: MarketsView,
    pool: MemPoolView,
    tx: AuthorizedTransaction,
    valid: bool,
)
    requires
        tx_put(pool, tx) is Err,
    ensures
        admitted(markets, pool, tx, valid) is Err,
{
}

} // verus!
