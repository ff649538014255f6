//! What holds of connecting and disconnecting blocks.

use vstd::prelude::*;

use crate::state::block::coins::{coins_moved_back, moving_back_undoes_moving, outputs_free};
use crate::state::block::connect::{all_coins_moved, coinbase_made, coinbase_point};
use crate::state::block::disconnect::coinbase_unmade;
use crate::state::block::trades::{
    amplify_applied, amplify_unmade, running_base, trade_applied, trade_unmade, TradeQuote,
};
use crate::state::ledger::{delete_undoes_insert, insert_keeps_index, LedgerView};
use crate::state::markets::MarketId;
use crate::state::markets::database::{account_of, MarketView, MarketsView};
use crate::state::markets::types::position;
use crate::state::update::{
    amplified, change_key, market_updated, MarketStateUpdate, StateUpdateView,
};
use crate::state::Error;
use crate::types::transaction::output::TxOutput;
use crate::types::transaction::{FilledTransaction, OutPoint};
use crate::types::MerkleRoot;

verus! {

/// None of the first `n` outputs of a coinbase is there.
pub open spec fn coinbase_free(ledger: LedgerView, merkle_root: MerkleRoot, n: int) -> bool {
    forall|i: int|
        0 <= i < n ==> !ledger.utxos.dom().contains(#[trigger] coinbase_point(merkle_root, i))
}

/// Taking the pay of the miner back undoes paying the miner.
pub proof fn unmaking_undoes_coinbase(
    ledger: LedgerView,
    merkle_root: MerkleRoot,
    coinbase: Seq<TxOutput>,
)
    requires
        ledger.index_in_step(),
        coinbase.len() <= u32::MAX,
        coinbase_free(ledger, merkle_root, coinbase.len() as int),
    ensures
        coinbase_made(ledger, merkle_root, coinbase).index_in_step(),
        coinbase_unmade(
            coinbase_made(ledger, merkle_root, coinbase),
            merkle_root,
            coinbase.len(),
        ) == Ok::<LedgerView, Error>(ledger),
    decreases coinbase.len(),
{
    lemma_coinbase(ledger, merkle_root, coinbase);
}

proof fn lemma_coinbase(ledger: LedgerView, merkle_root: MerkleRoot, coinbase: Seq<TxOutput>)
    requires
        ledger.index_in_step(),
        coinbase.len() <= u32::MAX,
        coinbase_free(ledger, merkle_root, coinbase.len() as int),
    ensures
        coinbase_made(ledger, merkle_root, coinbase).index_in_step(),
        coinbase_unmade(
            coinbase_made(ledger, merkle_root, coinbase),
            merkle_root,
            coinbase.len(),
        ) == Ok::<LedgerView, Error>(ledger),
        forall|o: OutPoint| #[trigger]
            coinbase_made(ledger, merkle_root, coinbase).utxos.dom().contains(o)
                ==> ledger.utxos.dom().contains(o) || exists|i: int|
                0 <= i < coinbase.len() && o == #[trigger] coinbase_point(merkle_root, i),
    decreases coinbase.len(),
{
    if coinbase.len() > 0 {
        let front = coinbase.drop_last();
        lemma_coinbase(ledger, merkle_root, front);
        let before = coinbase_made(ledger, merkle_root, front);
        let point = coinbase_point(merkle_root, coinbase.len() - 1);
        if before.utxos.dom().contains(point) {
            assert(!ledger.utxos.dom().contains(point));
            let i = choose|i: int|
                0 <= i < front.len() && point == #[trigger] coinbase_point(merkle_root, i);
            assert(i as u32 == (coinbase.len() - 1) as u32);
        }
        insert_keeps_index(before, point, coinbase.last().filled());
        delete_undoes_insert(before, point, coinbase.last().filled());
        let after = coinbase_made(ledger, merkle_root, coinbase);
        assert forall|o: OutPoint| #[trigger] after.utxos.dom().contains(o) implies ledger
            .utxos.dom().contains(o) || exists|i: int|
            0 <= i < coinbase.len() && o == #[trigger] coinbase_point(merkle_root, i) by {
            if o != point && !ledger.utxos.dom().contains(o) {
                let i = choose|i: int|
                    0 <= i < front.len() && o == #[trigger] coinbase_point(merkle_root, i);
                assert(0 <= i < coinbase.len() && o == coinbase_point(merkle_root, i));
            }
        }
    }
}

/// The coins of transactions are moved back, those of the last one first.
pub open spec fn all_coins_moved_back(
    ledger: LedgerView,
    txs: Seq<FilledTransaction>,
    skipped: Seq<u32>,
) -> Result<LedgerView, Error>
    decreases txs.len(),
{
    if txs.len() == 0 {
        Ok(ledger)
    } else if skipped.contains((txs.len() - 1) as u32) {
        all_coins_moved_back(ledger, txs.drop_last(), skipped)
    } else {
        match coins_moved_back(ledger, txs.last().transaction) {
            Err(e) => Err(e),
            Ok(before) => all_coins_moved_back(before, txs.drop_last(), skipped),
        }
    }
}

/// Each transaction makes coins that are new, and spends coins that were not
/// spent before.
pub open spec fn moves_are_new(
    ledger: LedgerView,
    txs: Seq<FilledTransaction>,
    skipped: Seq<u32>,
) -> bool
    decreases txs.len(),
{
    txs.len() > 0 ==> {
        let tx = txs.last().transaction;
        &&& moves_are_new(ledger, txs.drop_last(), skipped)
        &&& !skipped.contains((txs.len() - 1) as u32) ==> match all_coins_moved(
            ledger,
            txs.drop_last(),
            skipped,
        ) {
            Err(_) => true,
            Ok(before) => {
                &&& tx.outputs@.len() <= u32::MAX
                &&& outputs_free(before, tx.id(), tx.outputs@.len() as int)
                &&& forall|i: int|
                    0 <= i < tx.inputs@.len() ==> !before.stxos.dom().contains(
                        #[trigger] tx.inputs@[i],
                    )
            },
        }
    }
}

/// Moving the coins of a block back gives back the ledger.
pub proof fn moving_all_back_undoes_moving_all(
    ledger: LedgerView,
    txs: Seq<FilledTransaction>,
    skipped: Seq<u32>,
)
    requires
        ledger.index_in_step(),
        all_coins_moved(ledger, txs, skipped) is Ok,
        moves_are_new(ledger, txs, skipped),
    ensures
        all_coins_moved(ledger, txs, skipped)->Ok_0.index_in_step(),
        all_coins_moved_back(all_coins_moved(ledger, txs, skipped)->Ok_0, txs, skipped) == Ok::<
            LedgerView,
            Error,
        >(ledger),
    decreases txs.len(),
{
    if txs.len() > 0 {
        let front = txs.drop_last();
        moving_all_back_undoes_moving_all(ledger, front, skipped);
        if !skipped.contains((txs.len() - 1) as u32) {
            let before = all_coins_moved(ledger, front, skipped)->Ok_0;
            moving_back_undoes_moving(before, txs.last());
        }
    }
}

/// Taking a trade back undoes it, in its market: the shares and the volume are
/// as they were.
pub proof fn unmaking_undoes_trading(
    markets: MarketsView,
    tx: FilledTransaction,
    volume: u64,
    fee: u64,
    height: u32,
)
    requires
        tx.trade_of() is Some,
        tx.trade_of()->Some_0.shares != i64::MIN,
        market_updated(markets, trade_update(tx, volume, fee), height) is Ok,
    ensures
        ({
            let m = tx.trade_of()->Some_0.market_id;
            let after = market_updated(markets, trade_update(tx, volume, fee), height)->Ok_0;
            let back = trade_unmade(after, tx, height, Some(volume));
            &&& back is Ok
            &&& back->Ok_0.markets.dom() == markets.markets.dom()
            &&& back->Ok_0.markets[m] == (MarketView {
                last_updated_height: height,
                ..markets.markets[m]
            })
            &&& forall|other: MarketId|
                other != m ==> #[trigger] back->Ok_0.markets[other] == markets.markets[other]
        }),
{
    let trade = tx.trade_of()->Some_0;
    let m = trade.market_id;
    let o = trade.outcome_index as int;
    let market = markets.markets[m];
    let after = market_updated(markets, trade_update(tx, volume, fee), height)->Ok_0;
    let traded = after.markets[m];
    let back = trade_unmade(after, tx, height, Some(volume))->Ok_0;
    assert(traded.shares[o] == market.shares[o] + trade.shares);
    assert(traded.volumes[o] == market.volumes[o] + volume);
    assert(back.markets[m].shares =~= market.shares);
    assert(back.markets[m].volumes =~= market.volumes);
    assert(back.markets.dom() =~= markets.markets.dom());
}

/// What a trade does to its market.
pub open spec fn trade_update(tx: FilledTransaction, volume: u64, fee: u64) -> MarketStateUpdate {
    let trade = tx.trade_of()->Some_0;
    MarketStateUpdate {
        market_id: trade.market_id,
        share_delta: Some((trade.outcome_index as usize, trade.shares)),
        transaction_id: Some(tx.transaction.id().0),
        volume_sats: Some(volume),
        fee_sats: Some(fee),
    }
}

/// Taking back what an author added to a market undoes it.
pub proof fn unmaking_undoes_amplifying(
    markets: MarketsView,
    update: StateUpdateView,
    tx: FilledTransaction,
)
    requires
        amplify_applied(update, tx) is Ok,
        amplified(markets, amplify_applied(update, tx)->Ok_0.buys.last()) is Ok,
    ensures
        amplify_unmade(
            amplified(markets, amplify_applied(update, tx)->Ok_0.buys.last())->Ok_0,
            tx,
        ) == Ok::<MarketsView, Error>(markets),
{
    let buy = amplify_applied(update, tx)->Ok_0.buys.last();
    let after = amplified(markets, buy)->Ok_0;
    let back = amplify_unmade(after, tx)->Ok_0;
    assert(back.markets =~= markets.markets);
}

/// A sale of more shares than the seller has left in the block is refused, so
/// that shares are not sold twice.
pub proof fn shares_are_not_sold_twice(
    markets: MarketsView,
    update: StateUpdateView,
    tx: FilledTransaction,
    quote: TradeQuote,
    miner_fee: u64,
)
    requires
        tx.trade_of() is Some,
        tx.trade_of()->Some_0.shares < 0,
        trade_applied(markets, update, tx, quote, miner_fee) is Ok,
    ensures
        ({
            let trade = tx.trade_of()->Some_0;
            let key = change_key(trade.trader, trade.market_id, trade.outcome_index);
            let owned = account_of(
                markets.accounts,
                trade.trader,
            ).shares(
                position(trade.market_id, trade.outcome_index),
            );
            match trade_applied(markets, update, tx, quote, miner_fee)->Ok_0 {
                Some(next) => {
                    &&& next.change(key) == update.change(key) + trade.shares
                    &&& owned + next.change(key) >= 0
                },
                None => true,
            }
        }),
{
}

/// A trade that is skipped or made costs a buyer no more than the limit, and
/// brings a seller no less.
pub proof fn trades_keep_to_their_limit(
    markets: MarketsView,
    update: StateUpdateView,
    tx: FilledTransaction,
    quote: TradeQuote,
    miner_fee: u64,
)
    requires
        tx.trade_of() is Some,
        trade_applied(markets, update, tx, quote, miner_fee) is Ok,
        trade_applied(markets, update, tx, quote, miner_fee)->Ok_0 is Some,
    ensures
        ({
            let trade = tx.trade_of()->Some_0;
            if trade.buys() {
                quote is Buy && quote->total_cost_sats + miner_fee <= trade.limit_sats
            } else {
                quote is Sell && quote->net_proceeds_sats >= trade.limit_sats
            }
        }),
{
}

/// Trades do not deepen a market: what it is priced by counts what its author
/// put in, and nothing that traders pay.
pub proof fn trades_do_not_deepen_markets(
    markets: MarketsView,
    update: StateUpdateView,
    tx: FilledTransaction,
    quote: TradeQuote,
    miner_fee: u64,
    after: StateUpdateView,
    market: MarketView,
    m: MarketId,
)
    requires
        trade_applied(markets, update, tx, quote, miner_fee) == Ok::<
            Option<StateUpdateView>,
            Error,
        >(Some(after)),
    ensures
        running_base(market, after.buys, m) == running_base(market, update.buys, m),
{
    if after.buys.len() > update.buys.len() {
        assert(after.buys.drop_last() =~= update.buys);
    }
}

/// Nor does what trades do to a market once it is written down.
pub proof fn written_trades_do_not_deepen_markets(
    v: MarketsView,
    u: MarketStateUpdate,
    height: u32,
    after: MarketsView,
    m: MarketId,
)
    requires
        market_updated(v, u, height) == Ok::<MarketsView, Error>(after),
        v.markets.dom().contains(m),
    ensures
        after.markets.dom().contains(m),
        after.markets[m].liquidity_base_sats == v.markets[m].liquidity_base_sats,
{
}

} // verus!
