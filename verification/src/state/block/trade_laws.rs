//! What holds of trades: what they cost and bring, and who gets it.

use vstd::prelude::*;

use crate::state::block::trades::{
    amplify_applied, lemma_pending_bounds, pending_amplify, running_shares, terms_of,
    trade_applied, TradeQuote, TradeTermsView,
};
use crate::state::consolidation::{InputChange, PendingBuySettlement};
use crate::state::markets::database::{account_of, MarketView, MarketsView};
use crate::state::markets::types::{position, Position};
use crate::state::markets::MarketId;
use crate::state::update::{
    account_changed, amplified, change_key, market_updated, MarketStateUpdate, ShareChangeKey,
    StateUpdateView,
};
use crate::state::Error;
use crate::types::transaction::{total_value, FilledTransaction};
use crate::types::Address;

verus! {

/// The sum of what is given back of coins that were spent.
pub open spec fn returned(changes: Seq<InputChange>) -> int
    decreases changes.len(),
{
    if changes.len() == 0 {
        0
    } else {
        returned(changes.drop_last()) + changes.last().change_sats
    }
}

proof fn lemma_returned_one(change: InputChange)
    ensures
        returned(seq![change]) == change.change_sats,
{
    assert(seq![change].drop_last() =~= Seq::empty());
    assert(returned(seq![change].drop_last()) == 0);
}

/// A sale keeps the value of the coins that it spends: what the miner does not
/// get of them goes back to the trader, and to nobody else.
pub proof fn sales_give_back_what_is_left(
    markets: MarketsView,
    update: StateUpdateView,
    tx: FilledTransaction,
    quote: TradeQuote,
    miner_fee: u64,
    next: StateUpdateView,
)
    requires
        trade_applied(markets, update, tx, quote, miner_fee) == Ok::<
            Option<StateUpdateView>,
            Error,
        >(Some(next)),
        tx.transaction.data is Some,
        tx.transaction.data->0 is Trade,
        tx.transaction.data->0->Trade_shares <= 0,
    ensures
        update.input_changes.len() <= next.input_changes.len(),
        forall|i: int|
            0 <= i < update.input_changes.len() ==> (#[trigger] next.input_changes[i])
                == update.input_changes[i],
        ({
            let gained = next.input_changes.skip(update.input_changes.len() as int);
            let total = total_value(tx.spent_utxos@);
            &&& total == returned(gained) + if total < miner_fee {
                total as int
            } else {
                miner_fee as int
            }
            &&& forall|i: int|
                0 <= i < gained.len() ==> (#[trigger] gained[i]).address
                    == tx.transaction.data->0->Trade_trader && gained[i].transaction_id
                    == tx.transaction.id().0
        }),
{
    let gained = next.input_changes.skip(update.input_changes.len() as int);
    let total = total_value(tx.spent_utxos@);
    if total > miner_fee {
        let change = next.input_changes.last();
        assert(gained =~= seq![change]);
        lemma_returned_one(change);
    } else {
        assert(gained =~= Seq::empty());
    }
}

/// A sale pays the trader what the market maker gives for the shares, no less
/// than the trader asks for, and takes the shares from the trader.
pub proof fn sales_pay_the_trader(
    markets: MarketsView,
    update: StateUpdateView,
    tx: FilledTransaction,
    quote: TradeQuote,
    miner_fee: u64,
    next: StateUpdateView,
)
    requires
        trade_applied(markets, update, tx, quote, miner_fee) == Ok::<
            Option<StateUpdateView>,
            Error,
        >(Some(next)),
        tx.transaction.data is Some,
        tx.transaction.data->0 is Trade,
        tx.transaction.data->0->Trade_shares <= 0,
    ensures
        quote is Sell,
        quote->net_proceeds_sats >= tx.transaction.data->0->Trade_limit_sats,
        next.sells.len() == update.sells.len() + 1,
        next.sells.drop_last() == update.sells,
        next.sells.last().seller_address == tx.transaction.data->0->Trade_trader,
        next.sells.last().market_id == tx.transaction.data->0->Trade_market_id,
        next.sells.last().outcome_index == tx.transaction.data->0->Trade_outcome_index,
        next.sells.last().payout_sats == quote->net_proceeds_sats,
        next.sells.last().fee_sats == quote->Sell_trading_fee_sats,
        next.sells.last().transaction_id == tx.transaction.id().0,
        next.buys == update.buys,
{
    assert(next.sells.drop_last() =~= update.sells);
}

/// A purchase costs the trader what the market maker asks for, with the fee of
/// the miner no more than the trader offers. All that the trader's coins hold is
/// put into it, to be settled with the trader.
pub proof fn purchases_charge_the_trader(
    markets: MarketsView,
    update: StateUpdateView,
    tx: FilledTransaction,
    quote: TradeQuote,
    miner_fee: u64,
    next: StateUpdateView,
)
    requires
        trade_applied(markets, update, tx, quote, miner_fee) == Ok::<
            Option<StateUpdateView>,
            Error,
        >(Some(next)),
        tx.transaction.data is Some,
        tx.transaction.data->0 is Trade,
        tx.transaction.data->0->Trade_shares > 0,
    ensures
        quote is Buy,
        quote->total_cost_sats + miner_fee <= tx.transaction.data->0->Trade_limit_sats,
        next.buys.len() == update.buys.len() + 1,
        next.buys.drop_last() == update.buys,
        next.buys.last().trader_address == tx.transaction.data->0->Trade_trader,
        next.buys.last().market_id == tx.transaction.data->0->Trade_market_id,
        next.buys.last().input_value_sats == total_value(tx.spent_utxos@),
        next.buys.last().lmsr_cost_sats == quote->base_cost_sats,
        next.buys.last().market_fee_sats == quote->Buy_trading_fee_sats,
        next.buys.last().transaction_id == tx.transaction.id().0,
        !next.buys.last().is_amplify,
        next.sells == update.sells,
        next.input_changes == update.input_changes,
{
    assert(next.buys.drop_last() =~= update.buys);
}

/// A trade that is made moves as many shares as it names, of the outcome that it
/// names: those of the market and those of the trader, and no others. It adds
/// what was paid to the volume.
pub proof fn trades_move_their_shares(
    markets: MarketsView,
    update: StateUpdateView,
    tx: FilledTransaction,
    quote: TradeQuote,
    miner_fee: u64,
    next: StateUpdateView,
    key: ShareChangeKey,
)
    requires
        trade_applied(markets, update, tx, quote, miner_fee) == Ok::<
            Option<StateUpdateView>,
            Error,
        >(Some(next)),
        tx.transaction.data is Some,
        tx.transaction.data->0 is Trade,
    ensures
        ({
            let trade = tx.transaction.data->0;
            let own = key.address == trade->Trade_trader && key.market_id
                == trade->Trade_market_id && key.outcome_index == trade->Trade_outcome_index;
            &&& next.change(key) == update.change(key) + if own {
                trade->Trade_shares as int
            } else {
                0
            }
            &&& next.updates.len() == update.updates.len() + 1
            &&& next.updates.drop_last() == update.updates
            &&& next.updates.last().market_id == trade->Trade_market_id
            &&& next.updates.last().share_delta == Some(
                (trade->Trade_outcome_index as usize, trade->Trade_shares),
            )
            &&& next.updates.last().volume_sats == Some(
                if trade->Trade_shares > 0 {
                    quote->total_cost_sats
                } else {
                    quote->net_proceeds_sats
                },
            )
            &&& next.creations == update.creations
            &&& next.votes == update.votes
        }),
{
    assert(next.updates.drop_last() =~= update.updates);
}

/// A trade is made in an open market only, on an outcome that the market has, and
/// leaves it with no less than no shares. A trader sells no more shares than they
/// have, with the trades of the block so far.
pub proof fn trades_need_an_open_market(
    markets: MarketsView,
    update: StateUpdateView,
    tx: FilledTransaction,
    quote: TradeQuote,
    miner_fee: u64,
)
    requires
        trade_applied(markets, update, tx, quote, miner_fee) is Ok,
    ensures
        tx.transaction.data is Some,
        tx.transaction.data->0 is Trade,
        ({
            let trade = tx.transaction.data->0;
            let m = trade->Trade_market_id;
            &&& markets.markets.dom().contains(m)
            &&& markets.markets[m].state is Trading
            &&& running_shares(markets.markets[m].shares, update.updates, m) is Ok
            &&& trade->Trade_outcome_index < running_shares(
                markets.markets[m].shares,
                update.updates,
                m,
            )->Ok_0.len()
            &&& running_shares(
                markets.markets[m].shares,
                update.updates,
                m,
            )->Ok_0[trade->Trade_outcome_index as int] + trade->Trade_shares >= 0
            &&& trade->Trade_shares <= 0 ==> {
                let key = change_key(trade->Trade_trader, m, trade->Trade_outcome_index);
                account_of(markets.accounts, trade->Trade_trader).shares(
                    position(m, trade->Trade_outcome_index),
                ) + update.change(key) + trade->Trade_shares >= 0
            }
        }),
{
}

/// A trade is skipped only where its price has moved past its limit: a purchase
/// that would cost more than the trader offers, or a sale that would bring less
/// than the trader asks for.
pub proof fn trades_are_skipped_past_their_limit_only(
    markets: MarketsView,
    update: StateUpdateView,
    tx: FilledTransaction,
    quote: TradeQuote,
    miner_fee: u64,
)
    requires
        trade_applied(markets, update, tx, quote, miner_fee) == Ok::<
            Option<StateUpdateView>,
            Error,
        >(None),
    ensures
        tx.transaction.data is Some,
        tx.transaction.data->0 is Trade,
        tx.transaction.data->0->Trade_shares > 0 ==> quote is Buy && quote->total_cost_sats
            + miner_fee > tx.transaction.data->0->Trade_limit_sats,
        tx.transaction.data->0->Trade_shares <= 0 ==> quote is Sell && quote->net_proceeds_sats
            < tx.transaction.data->0->Trade_limit_sats,
{
}

/// A purchase within its limit, in an open market, is made.
pub proof fn purchases_within_their_limit_are_made(
    markets: MarketsView,
    update: StateUpdateView,
    tx: FilledTransaction,
    quote: TradeQuote,
    miner_fee: u64,
)
    requires
        tx.transaction.data is Some,
        tx.transaction.data->0 is Trade,
        ({
            let trade = tx.transaction.data->0;
            let m = trade->Trade_market_id;
            let o = trade->Trade_outcome_index as int;
            let key = change_key(trade->Trade_trader, m, trade->Trade_outcome_index);
            &&& trade->Trade_shares > 0
            &&& markets.markets.dom().contains(m)
            &&& markets.markets[m].state is Trading
            &&& running_shares(markets.markets[m].shares, update.updates, m) is Ok
            &&& o < running_shares(markets.markets[m].shares, update.updates, m)->Ok_0.len()
            &&& 0 <= running_shares(markets.markets[m].shares, update.updates, m)->Ok_0[o]
                + trade->Trade_shares <= i64::MAX
            &&& update.change(key) + trade->Trade_shares <= i64::MAX
            &&& total_value(tx.spent_utxos@) <= u64::MAX
            &&& quote is Buy
            &&& quote->total_cost_sats + miner_fee <= trade->Trade_limit_sats
        }),
    ensures
        trade_applied(markets, update, tx, quote, miner_fee) is Ok,
        trade_applied(markets, update, tx, quote, miner_fee)->Ok_0 is Some,
{
}

/// A sale within its limit, in an open market, of shares that the trader has, is
/// made.
pub proof fn sales_within_their_limit_are_made(
    markets: MarketsView,
    update: StateUpdateView,
    tx: FilledTransaction,
    quote: TradeQuote,
    miner_fee: u64,
)
    requires
        tx.transaction.data is Some,
        tx.transaction.data->0 is Trade,
        ({
            let trade = tx.transaction.data->0;
            let m = trade->Trade_market_id;
            let o = trade->Trade_outcome_index as int;
            let key = change_key(trade->Trade_trader, m, trade->Trade_outcome_index);
            &&& trade->Trade_shares <= 0
            &&& markets.markets.dom().contains(m)
            &&& markets.markets[m].state is Trading
            &&& running_shares(markets.markets[m].shares, update.updates, m) is Ok
            &&& o < running_shares(markets.markets[m].shares, update.updates, m)->Ok_0.len()
            &&& 0 <= running_shares(markets.markets[m].shares, update.updates, m)->Ok_0[o]
                + trade->Trade_shares <= i64::MAX
            &&& account_of(markets.accounts, trade->Trade_trader).shares(
                position(m, trade->Trade_outcome_index),
            ) + update.change(key) + trade->Trade_shares >= 0
            &&& i64::MIN <= update.change(key) + trade->Trade_shares
            &&& total_value(tx.spent_utxos@) <= u64::MAX
            &&& quote is Sell
            &&& quote->net_proceeds_sats >= trade->Trade_limit_sats
        }),
    ensures
        trade_applied(markets, update, tx, quote, miner_fee) is Ok,
        trade_applied(markets, update, tx, quote, miner_fee)->Ok_0 is Some,
{
}

/// The sum of what the trades of a block change in an outcome of a market.
pub open spec fn traded(updates: Seq<MarketStateUpdate>, m: MarketId, outcome: int) -> int
    decreases updates.len(),
{
    if updates.len() == 0 {
        0
    } else {
        let u = updates.last();
        traded(updates.drop_last(), m, outcome) + if u.market_id == m && u.share_delta is Some
            && u.share_delta->Some_0.0 == outcome {
            u.share_delta->Some_0.1 as int
        } else {
            0
        }
    }
}

/// A trade is priced against the shares of its market before the block with all
/// that was traded in the block so far.
pub proof fn prices_count_the_trades_of_the_block(
    shares: Seq<i64>,
    updates: Seq<MarketStateUpdate>,
    m: MarketId,
    outcome: int,
)
    requires
        running_shares(shares, updates, m) is Ok,
        0 <= outcome < shares.len(),
    ensures
        running_shares(shares, updates, m)->Ok_0.len() == shares.len(),
        running_shares(shares, updates, m)->Ok_0[outcome] == shares[outcome] + traded(
            updates,
            m,
            outcome,
        ),
    decreases updates.len(),
{
    if updates.len() > 0 {
        prices_count_the_trades_of_the_block(shares, updates.drop_last(), m, outcome);
    }
}

/// A trade is priced between two states of its market, which differ by the shares
/// that it names in the outcome that it names. The market is as deep as its
/// author made it, with what was added in the block.
pub proof fn prices_are_between_before_and_after(
    markets: MarketsView,
    update: StateUpdateView,
    tx: FilledTransaction,
    terms: TradeTermsView,
    o: int,
)
    requires
        terms_of(markets, update, tx) == Ok::<TradeTermsView, Error>(terms),
        0 <= o < terms.effective_shares.len(),
    ensures
        ({
            let trade = tx.transaction.data->0;
            let market = markets.markets[trade->Trade_market_id];
            let base = market.liquidity_base_sats + pending_amplify(
                update.buys,
                trade->Trade_market_id,
            );
            &&& running_shares(market.shares, update.updates, trade->Trade_market_id)
                == Ok::<Seq<i64>, Error>(terms.effective_shares)
            &&& terms.new_shares.len() == terms.effective_shares.len()
            &&& terms.new_shares[o] == terms.effective_shares[o] + if o
                == trade->Trade_outcome_index {
                trade->Trade_shares as int
            } else {
                0
            }
            &&& base <= u64::MAX ==> terms.liquidity_base_sats == base
        }),
{
    lemma_pending_bounds(update.buys, tx.transaction.data->0->Trade_market_id);
}

/// What counts as added to a market in a block is what authors add to it, and
/// nothing else.
pub proof fn authors_add_to_their_market(
    buys: Seq<PendingBuySettlement>,
    buy: PendingBuySettlement,
    m: MarketId,
)
    ensures
        pending_amplify(buys.push(buy), m) == pending_amplify(buys, m) + if buy.is_amplify
            && buy.market_id == m {
            buy.lmsr_cost_sats as int
        } else {
            0
        },
        pending_amplify(Seq::empty(), m) == 0,
{
    assert(buys.push(buy).drop_last() =~= buys);
}

/// An author who deepens a market puts in the amount that they name, in their own
/// name and without a fee for the market.
pub proof fn authors_put_in_what_they_name(
    update: StateUpdateView,
    tx: FilledTransaction,
    next: StateUpdateView,
)
    requires
        amplify_applied(update, tx) == Ok::<StateUpdateView, Error>(next),
    ensures
        tx.transaction.data is Some,
        tx.transaction.data->0 is AmplifyBeta,
        next == (StateUpdateView { buys: next.buys, ..update }),
        next.buys.len() == update.buys.len() + 1,
        next.buys.drop_last() == update.buys,
        next.buys.last().market_id == tx.transaction.data->0->AmplifyBeta_market_id,
        next.buys.last().trader_address == tx.transaction.data->0->AmplifyBeta_market_author,
        next.buys.last().lmsr_cost_sats == tx.transaction.data->0->AmplifyBeta_amount,
        next.buys.last().input_value_sats == total_value(tx.spent_utxos@),
        next.buys.last().market_fee_sats == 0,
        next.buys.last().transaction_id == tx.transaction.id().0,
        next.buys.last().is_amplify,
{
    assert(next.buys.drop_last() =~= update.buys);
}

/// A market gains in depth what its author adds, and nothing else changes.
pub proof fn deepening_adds_the_amount(
    v: MarketsView,
    buy: PendingBuySettlement,
    after: MarketsView,
    m: MarketId,
)
    requires
        amplified(v, buy) == Ok::<MarketsView, Error>(after),
        v.markets.dom().contains(m),
    ensures
        after == (MarketsView { markets: after.markets, ..v }),
        after.markets.dom().contains(m),
        after.markets[m] == (MarketView {
            liquidity_base_sats: after.markets[m].liquidity_base_sats,
            ..v.markets[m]
        }),
        after.markets[m].liquidity_base_sats == v.markets[m].liquidity_base_sats
            + if buy.is_amplify && buy.market_id == m {
            buy.lmsr_cost_sats as int
        } else {
            0
        },
{
}

/// A trade that is written down changes the shares and the volume of one outcome
/// of its market, by what the trade says, and no other market.
pub proof fn written_trades_change_one_outcome(
    v: MarketsView,
    u: MarketStateUpdate,
    height: u32,
    after: MarketsView,
    m: MarketId,
    o: int,
)
    requires
        market_updated(v, u, height) == Ok::<MarketsView, Error>(after),
        u.share_delta is Some,
        v.markets.dom().contains(m),
        0 <= o < v.markets[m].shares.len(),
        v.markets[m].volumes.len() == v.markets[m].shares.len(),
    ensures
        after.accounts == v.accounts,
        after.funds == v.funds,
        after.markets.dom().contains(m),
        after.markets[m].terms == v.markets[m].terms,
        after.markets[m].state == v.markets[m].state,
        after.markets[m].shares.len() == v.markets[m].shares.len(),
        after.markets[m].volumes.len() == v.markets[m].volumes.len(),
        after.markets[m].shares[o] == v.markets[m].shares[o] + if m == u.market_id && o
            == u.share_delta->Some_0.0 {
            u.share_delta->Some_0.1 as int
        } else {
            0
        },
        after.markets[m].volumes[o] == v.markets[m].volumes[o] + if m == u.market_id && o
            == u.share_delta->Some_0.0 && u.volume_sats is Some {
            u.volume_sats->0 as int
        } else {
            0
        },
        m == u.market_id ==> after.markets[m].last_updated_height == height,
        m != u.market_id ==> after.markets[m] == v.markets[m],
        !after.mempool_shares.dom().contains(u.market_id),
{
}

/// Shares are added to, or taken from, the one account and the one position that
/// a change names.
pub proof fn changes_touch_one_position(
    v: MarketsView,
    key: ShareChangeKey,
    delta: i64,
    height: u32,
    after: MarketsView,
    address: Address,
    p: Position,
)
    requires
        account_changed(v, key, delta, height) == Ok::<MarketsView, Error>(after),
    ensures
        after == (MarketsView { accounts: after.accounts, ..v }),
        account_of(after.accounts, address).shares(p) == account_of(v.accounts, address).shares(p)
            + if address == key.address && p.market_id == key.market_id && p.outcome_index
            == key.outcome_index {
            delta as int
        } else {
            0
        },
        delta < 0 ==> account_of(v.accounts, key.address).shares(
            position(key.market_id, key.outcome_index),
        ) >= -delta,
{
}

} // verus!
