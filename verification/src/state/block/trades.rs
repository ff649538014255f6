//! Transactions that trade, and those that deepen a market.

use vstd::prelude::*;

use crate::bytes::to_vec;
use crate::replica::Replica;
use crate::state::consolidation::{
    buy_change_point, sell_input_change_point, sell_payout_point,
};
use crate::state::consolidation::{InputChange, PendingBuySettlement, PendingSellPayout};
use crate::state::ledger::{Ledger, LedgerView, UtxoManager};
use crate::state::markets::database::{account_of, MarketView, MarketsDatabase, MarketsView};
use crate::state::markets::types::{position, MarketError, MarketId};
use crate::state::update::{change_key, MarketStateUpdate, StateUpdate, StateUpdateView};
use crate::state::{Error, Reason};
use crate::types::encoding::Encode;
use crate::types::transaction::{
    magnitude, total_value, FilledTransaction, Trade, TransactionData,
};
use crate::types::Address;

verus! {

/// The shares of a market after some of its trades.
pub open spec fn running_shares(
    shares: Seq<i64>,
    updates: Seq<MarketStateUpdate>,
    m: MarketId,
) -> Result<Seq<i64>, Error>
    decreases updates.len(),
{
    if updates.len() == 0 {
        Ok(shares)
    } else {
        match running_shares(shares, updates.drop_last(), m) {
            Err(e) => Err(e),
            Ok(before) => match updates.last().share_delta {
                Some((outcome, delta)) => if updates.last().market_id != m {
                    Ok(before)
                } else {
                    share_added(before, outcome, delta)
                },
                None => Ok(before),
            },
        }
    }
}

/// The shares of a market with those of one outcome changed.
pub open spec fn share_added(shares: Seq<i64>, outcome: usize, delta: i64) -> Result<
    Seq<i64>,
    Error,
> {
    if outcome >= shares.len() {
        Err(Error::Market(MarketError::InvalidOutcomeIndex(outcome)))
    } else if !(i64::MIN <= shares[outcome as int] + delta <= i64::MAX) {
        Err(Error::InvalidTransaction { reason: Reason::Text("Market shares overflow") })
    } else {
        Ok(shares.update(outcome as int, (shares[outcome as int] + delta) as i64))
    }
}

/// What authors add to a market in a block.
pub open spec fn pending_amplify(buys: Seq<PendingBuySettlement>, m: MarketId) -> int
    decreases buys.len(),
{
    if buys.len() == 0 {
        0
    } else {
        pending_amplify(buys.drop_last(), m) + if buys.last().market_id == m
            && buys.last().is_amplify {
            buys.last().lmsr_cost_sats as int
        } else {
            0
        }
    }
}

/// The liquidity base of a market with what authors add in a block, at most
/// the largest number there is.
pub open spec fn running_base(market: MarketView, buys: Seq<PendingBuySettlement>, m: MarketId)
    -> u64 {
    let sum = market.liquidity_base_sats + pending_amplify(buys, m);
    if sum <= u64::MAX {
        sum as u64
    } else {
        u64::MAX
    }
}

proof fn lemma_running_prefix(
    shares: Seq<i64>,
    updates: Seq<MarketStateUpdate>,
    m: MarketId,
    n: int,
)
    requires
        0 <= n <= updates.len(),
        running_shares(shares, updates.subrange(0, n), m) is Err,
    ensures
        running_shares(shares, updates, m) == running_shares(shares, updates.subrange(0, n), m),
    decreases updates.len() - n,
{
    if n == updates.len() {
        assert(updates.subrange(0, n) =~= updates);
    } else {
        assert(updates.subrange(0, n + 1).drop_last() =~= updates.subrange(0, n));
        lemma_running_prefix(shares, updates, m, n + 1);
    }
}

pub proof fn lemma_pending_bounds(buys: Seq<PendingBuySettlement>, m: MarketId)
    ensures
        0 <= pending_amplify(buys, m) <= buys.len() * 0xffff_ffff_ffff_ffff,
    decreases buys.len(),
{
    if buys.len() > 0 {
        lemma_pending_bounds(buys.drop_last(), m);
    }
}

fn add_share(shares: &mut Vec<i64>, outcome: usize, delta: i64) -> (r: Result<(), Error>)
    ensures
        match r {
            Ok(()) => share_added(old(shares)@, outcome, delta) == Ok::<Seq<i64>, Error>(
                final(shares)@,
            ),
            Err(e) => share_added(old(shares)@, outcome, delta) == Err::<Seq<i64>, Error>(e),
        },
{
    if outcome >= shares.len() {
        return Err(Error::Market(MarketError::InvalidOutcomeIndex(outcome)));
    }
    match shares[outcome].checked_add(delta) {
        None => Err(Error::InvalidTransaction { reason: Reason::Text("Market shares overflow") }),
        Some(sum) => {
            shares[outcome] = sum;
            Ok(())
        },
    }
}

/// The shares and the liquidity base of a market with what has happened in the
/// block so far. A trade is priced against these, not against the state before
/// the block.
pub fn running_market_state(
    market_id: &MarketId,
    markets: &MarketsDatabase,
    state_update: &StateUpdate,
) -> (r: Result<(Vec<i64>, u64), Error>)
    ensures
        if !markets@.markets.dom().contains(*market_id) {
            r == Err::<(Vec<i64>, u64), Error>(
                Error::InvalidTransaction { reason: Reason::MarketDoesNotExist(*market_id) },
            )
        } else {
            let market = markets@.markets[*market_id];
            match r {
                Ok((shares, base)) => {
                    &&& running_shares(market.shares, state_update@.updates, *market_id) == Ok::<
                        Seq<i64>,
                        Error,
                    >(shares@)
                    &&& base == running_base(market, state_update@.buys, *market_id)
                },
                Err(e) => running_shares(market.shares, state_update@.updates, *market_id) == Err::<
                    Seq<i64>,
                    Error,
                >(e),
            }
        },
{
    let market = match markets.get_market(market_id) {
        None => return Err(
            Error::InvalidTransaction { reason: Reason::MarketDoesNotExist(*market_id) },
        ),
        Some(market) => market,
    };
    let ghost start = market@.shares;
    let mut shares: Vec<i64> = to_vec(market.shares.as_slice());
    let updates = &state_update.market_updates;
    let mut i: usize = 0;
    assert(updates@.subrange(0, 0) =~= Seq::empty());
    while i < updates.len()
        invariant
            i <= updates@.len(),
            markets@.markets.dom().contains(*market_id),
            start == markets@.markets[*market_id].shares,
            updates@ == state_update@.updates,
            running_shares(start, updates@.subrange(0, i as int), *market_id) == Ok::<
                Seq<i64>,
                Error,
            >(shares@),
        decreases updates@.len() - i,
    {
        proof {
            assert(updates@.subrange(0, i + 1).drop_last() =~= updates@.subrange(0, i as int));
        }
        if updates[i].market_id == *market_id {
            match updates[i].share_delta {
                Some((outcome, delta)) => match add_share(&mut shares, outcome, delta) {
                    Err(e) => {
                        proof {
                            lemma_running_prefix(start, updates@, *market_id, i + 1);
                        }
                        return Err(e);
                    },
                    Ok(()) => {},
                },
                None => {},
            }
        }
        i += 1;
    }
    assert(updates@.subrange(0, i as int) =~= updates@);
    let buys = &state_update.pending_buy_settlements;
    let mut sum: u128 = 0;
    let mut j: usize = 0;
    assert(buys@.subrange(0, 0) =~= Seq::empty());
    while j < buys.len()
        invariant
            j <= buys@.len(),
            sum == pending_amplify(buys@.subrange(0, j as int), *market_id),
        decreases buys@.len() - j,
    {
        proof {
            assert(buys@.subrange(0, j + 1).drop_last() =~= buys@.subrange(0, j as int));
            lemma_pending_bounds(buys@.subrange(0, j as int), *market_id);
        }
        if buys[j].market_id == *market_id && buys[j].is_amplify {
            sum = sum + buys[j].lmsr_cost_sats as u128;
        }
        j += 1;
    }
    assert(buys@.subrange(0, j as int) =~= buys@);
    let base: u64 = if sum > u64::MAX as u128 {
        u64::MAX
    } else {
        match market.liquidity_base_sats.checked_add(sum as u64) {
            Some(base) => base,
            None => u64::MAX,
        }
    };
    Ok((shares, base))
}

/// What shares cost, or what they bring, as worked out by the market maker.
#[derive(Clone, Copy, Debug)]
pub enum TradeQuote {
    Buy { base_cost_sats: u64, trading_fee_sats: u64, total_cost_sats: u64 },
    Sell { net_proceeds_sats: u64, trading_fee_sats: u64 },
    /// No price could be worked out.
    Failed,
}

/// A trade takes its place in a block, or is left out because the price has
/// moved.
#[derive(Clone, Copy, Debug)]
pub enum TradeApplyResult {
    Applied,
    Skipped { reason: Reason },
}

/// What a trade is priced by: the shares before it and after it, and the
/// liquidity base.
pub struct TradeTerms {
    pub effective_shares: Vec<i64>,
    pub new_shares: Vec<i64>,
    pub liquidity_base_sats: u64,
}

pub struct TradeTermsView {
    pub effective_shares: Seq<i64>,
    pub new_shares: Seq<i64>,
    pub liquidity_base_sats: u64,
}

impl View for TradeTerms {
    type V = TradeTermsView;

    open spec fn view(&self) -> TradeTermsView {
        TradeTermsView {
            effective_shares: self.effective_shares@,
            new_shares: self.new_shares@,
            liquidity_base_sats: self.liquidity_base_sats,
        }
    }
}

/// What a trade is priced by, or why it cannot be made.
pub open spec fn terms_of(markets: MarketsView, update: StateUpdateView, tx: FilledTransaction)
    -> Result<TradeTermsView, Error> {
    match tx.trade_of() {
        None => Err(Error::InvalidTransaction { reason: Reason::Text("Not a trade transaction") }),
        Some(trade) => if !markets.markets.dom().contains(trade.market_id) {
            Err(Error::InvalidTransaction { reason: Reason::MarketDoesNotExist(trade.market_id) })
        } else {
            let market = markets.markets[trade.market_id];
            if !(market.state is Trading) {
                Err(Error::InvalidTransaction { reason: Reason::CannotTrade(market.state) })
            } else {
                match running_shares(market.shares, update.updates, trade.market_id) {
                    Err(e) => Err(e),
                    Ok(effective_shares) => match share_added(
                        effective_shares,
                        trade.outcome_index as usize,
                        trade.shares,
                    ) {
                        Err(e) => Err(e),
                        Ok(new_shares) => if new_shares[trade.outcome_index as int] < 0 {
                            Err(
                                Error::InvalidTransaction {
                                    reason: Reason::NegativeMarketShares {
                                        shares: new_shares[trade.outcome_index as int],
                                        outcome: trade.outcome_index,
                                    },
                                },
                            )
                        } else {
                            Ok(
                                TradeTermsView {
                                    effective_shares,
                                    new_shares,
                                    liquidity_base_sats: running_base(
                                        market,
                                        update.buys,
                                        trade.market_id,
                                    ),
                                },
                            )
                        },
                    },
                }
            }
        },
    }
}

/// What a trade is priced by.
pub fn trade_terms(
    markets: &MarketsDatabase,
    state_update: &StateUpdate,
    filled_tx: &FilledTransaction,
) -> (r: Result<TradeTerms, Error>)
    ensures
        match r {
            Ok(terms) => terms_of(markets@, state_update@, *filled_tx) == Ok::<
                TradeTermsView,
                Error,
            >(terms@),
            Err(e) => terms_of(markets@, state_update@, *filled_tx) == Err::<
                TradeTermsView,
                Error,
            >(e),
        },
{
    let trade = match filled_tx.trade() {
        None => return Err(
            Error::InvalidTransaction { reason: Reason::Text("Not a trade transaction") },
        ),
        Some(trade) => trade,
    };
    match markets.get_market(&trade.market_id) {
        None => return Err(
            Error::InvalidTransaction { reason: Reason::MarketDoesNotExist(trade.market_id) },
        ),
        Some(market) => if !market.state.allows_trading() {
            return Err(
                Error::InvalidTransaction { reason: Reason::CannotTrade(market.state) },
            );
        },
    }
    let (effective_shares, liquidity_base_sats) = match running_market_state(
        &trade.market_id,
        markets,
        state_update,
    ) {
        Err(e) => return Err(e),
        Ok(running) => running,
    };
    let outcome: usize = trade.outcome_index as usize;
    let mut new_shares: Vec<i64> = to_vec(effective_shares.as_slice());
    match add_share(&mut new_shares, outcome, trade.shares) {
        Err(e) => return Err(e),
        Ok(()) => {},
    }
    if new_shares[outcome] < 0 {
        return Err(
            Error::InvalidTransaction {
                reason: Reason::NegativeMarketShares {
                    shares: new_shares[outcome],
                    outcome: trade.outcome_index,
                },
            },
        );
    }
    Ok(TradeTerms { effective_shares, new_shares, liquidity_base_sats })
}

/// The shares that a seller has, with the changes of the block so far.
pub open spec fn effective_owned(markets: MarketsView, update: StateUpdateView, trade: Trade)
    -> int {
    account_of(markets.accounts, trade.trader).shares(
        position(trade.market_id, trade.outcome_index),
    ) + update.change(change_key(trade.trader, trade.market_id, trade.outcome_index))
}

/// That a trader has too few shares to sell.
pub open spec fn insufficiency(markets: MarketsView, update: StateUpdateView, trade: Trade)
    -> Reason {
    Reason::InsufficientEffectiveShares {
        selling: magnitude(trade.shares),
        owned: account_of(markets.accounts, trade.trader).shares(
            position(trade.market_id, trade.outcome_index),
        ),
        effective: effective_owned(markets, update, trade) as i128,
        outcome: trade.outcome_index,
    }
}

/// Why a trade is skipped: its price has moved past its limit.
pub open spec fn skip_reason(trade: Trade, quote: TradeQuote, miner_fee: u64) -> Reason {
    match quote {
        TradeQuote::Buy { base_cost_sats, trading_fee_sats, total_cost_sats } => {
            Reason::BuyCostAboveLimit {
                cost_sats: total_cost_sats,
                miner_fee_sats: miner_fee,
                limit_sats: trade.limit_sats,
            }
        },
        TradeQuote::Sell { net_proceeds_sats, trading_fee_sats } => {
            Reason::SellProceedsBelowLimit {
                proceeds_sats: net_proceeds_sats,
                limit_sats: trade.limit_sats,
            }
        },
        TradeQuote::Failed => Reason::Text("Failed to calculate trade cost"),
    }
}

/// A trade is written into an update: what it does to the market and to the
/// trader.
pub open spec fn trade_noted(
    update: StateUpdateView,
    trade: Trade,
    txid: [u8; 32],
    volume: u64,
    fee: u64,
) -> Result<Option<StateUpdateView>, Error> {
    let key = change_key(trade.trader, trade.market_id, trade.outcome_index);
    if !(i64::MIN <= update.change(key) + trade.shares <= i64::MAX) {
        Err(Error::InvalidTransaction { reason: Reason::Text("Share change overflow") })
    } else {
        Ok(
            Some(
                StateUpdateView {
                    updates: update.updates.push(
                        MarketStateUpdate {
                            market_id: trade.market_id,
                            share_delta: Some((trade.outcome_index as usize, trade.shares)),
                            transaction_id: Some(txid),
                            volume_sats: Some(volume),
                            fee_sats: Some(fee),
                        },
                    ),
                    ..update.with_change(key, trade.shares)
                },
            ),
        )
    }
}

/// What a trade makes of an update; nothing, if the price has moved too far.
pub open spec fn trade_applied(
    markets: MarketsView,
    update: StateUpdateView,
    tx: FilledTransaction,
    quote: TradeQuote,
    miner_fee: u64,
) -> Result<Option<StateUpdateView>, Error> {
    match terms_of(markets, update, tx) {
        Err(e) => Err(e),
        Ok(_) => {
            let trade = tx.trade_of()->Some_0;
            let txid = tx.transaction.id().0;
            let input = total_value(tx.spent_utxos@);
            if input > u64::MAX {
                Err(
                    Error::InvalidTransaction {
                        reason: Reason::Text("Failed to compute input value"),
                    },
                )
            } else if trade.buys() {
                match quote {
                    TradeQuote::Buy { base_cost_sats, trading_fee_sats, total_cost_sats } => {
                        if total_cost_sats + miner_fee > trade.limit_sats {
                            Ok(None)
                        } else {
                            trade_noted(
                                StateUpdateView {
                                    buys: update.buys.push(
                                        PendingBuySettlement {
                                            market_id: trade.market_id,
                                            trader_address: trade.trader,
                                            input_value_sats: input as u64,
                                            lmsr_cost_sats: base_cost_sats,
                                            market_fee_sats: trading_fee_sats,
                                            transaction_id: txid,
                                            is_amplify: false,
                                        },
                                    ),
                                    ..update
                                },
                                trade,
                                txid,
                                total_cost_sats,
                                trading_fee_sats,
                            )
                        }
                    },
                    _ => Err(
                        Error::InvalidTransaction {
                            reason: Reason::Text("Failed to calculate trade cost"),
                        },
                    ),
                }
            } else if effective_owned(markets, update, trade) < magnitude(trade.shares) {
                Err(Error::InvalidTransaction { reason: insufficiency(markets, update, trade) })
            } else {
                match quote {
                    TradeQuote::Sell { net_proceeds_sats, trading_fee_sats } => {
                        if net_proceeds_sats < trade.limit_sats {
                            Ok(None)
                        } else {
                            trade_noted(
                                StateUpdateView {
                                    sells: update.sells.push(
                                        PendingSellPayout {
                                            market_id: trade.market_id,
                                            seller_address: trade.trader,
                                            payout_sats: net_proceeds_sats,
                                            fee_sats: trading_fee_sats,
                                            outcome_index: trade.outcome_index,
                                            transaction_id: txid,
                                        },
                                    ),
                                    input_changes: if input > miner_fee {
                                        update.input_changes.push(
                                            InputChange {
                                                address: trade.trader,
                                                change_sats: (input - miner_fee) as u64,
                                                transaction_id: txid,
                                            },
                                        )
                                    } else {
                                        update.input_changes
                                    },
                                    ..update
                                },
                                trade,
                                txid,
                                net_proceeds_sats,
                                trading_fee_sats,
                            )
                        }
                    },
                    _ => Err(
                        Error::InvalidTransaction {
                            reason: Reason::Text("Failed to calculate sell proceeds"),
                        },
                    ),
                }
            }
        },
    }
}

fn note_trade(
    state_update: &mut StateUpdate,
    trade: &Trade,
    txid: [u8; 32],
    volume_sats: u64,
    fee_sats: u64,
) -> (r: Result<TradeApplyResult, Error>)
    ensures
        match r {
            Ok(result) => {
                &&& result is Applied
                &&& trade_noted(old(state_update)@, *trade, txid, volume_sats, fee_sats) == Ok::<
                    Option<StateUpdateView>,
                    Error,
                >(Some(final(state_update)@))
            },
            Err(e) => trade_noted(old(state_update)@, *trade, txid, volume_sats, fee_sats) == Err::<
                Option<StateUpdateView>,
                Error,
            >(e),
        },
{
    let pending: i64 = state_update.pending_share_change(
        &trade.trader,
        &trade.market_id,
        trade.outcome_index,
    );
    if pending.checked_add(trade.shares).is_none() {
        return Err(Error::InvalidTransaction { reason: Reason::Text("Share change overflow") });
    }
    state_update.add_market_update(
        MarketStateUpdate {
            market_id: trade.market_id,
            share_delta: Some((trade.outcome_index as usize, trade.shares)),
            transaction_id: Some(txid),
            volume_sats: Some(volume_sats),
            fee_sats: Some(fee_sats),
        },
    );
    state_update.add_share_account_change(
        trade.trader,
        trade.market_id,
        trade.outcome_index,
        trade.shares,
    );
    Ok(TradeApplyResult::Applied)
}

/// Writes a trade into an update. A trade whose price has moved past its limit
/// is skipped. `miner_fee` is what the miner gets for the trade.
pub fn apply_trade(
    markets: &MarketsDatabase,
    filled_tx: &FilledTransaction,
    state_update: &mut StateUpdate,
    quote: &TradeQuote,
    miner_fee: u64,
) -> (r: Result<TradeApplyResult, Error>)
    requires
        filled_tx.transaction.encodable(),
    ensures
        match r {
            Ok(TradeApplyResult::Applied) => trade_applied(
                markets@,
                old(state_update)@,
                *filled_tx,
                *quote,
                miner_fee,
            ) == Ok::<Option<StateUpdateView>, Error>(Some(final(state_update)@)),
            Ok(TradeApplyResult::Skipped { reason }) => {
                &&& trade_applied(markets@, old(state_update)@, *filled_tx, *quote, miner_fee)
                    == Ok::<Option<StateUpdateView>, Error>(None)
                &&& reason == skip_reason(filled_tx.trade_of()->Some_0, *quote, miner_fee)
                &&& final(state_update)@ == old(state_update)@
            },
            Err(e) => trade_applied(markets@, old(state_update)@, *filled_tx, *quote, miner_fee)
                == Err::<Option<StateUpdateView>, Error>(e),
        },
{
    match trade_terms(markets, state_update, filled_tx) {
        Err(e) => return Err(e),
        Ok(_) => {},
    }
    let trade = match filled_tx.trade() {
        None => return Err(
            Error::InvalidTransaction { reason: Reason::Text("Not a trade transaction") },
        ),
        Some(trade) => trade,
    };
    let txid = filled_tx.txid().0;
    let input_value_sats: u64 = match filled_tx.spent_bitcoin_value() {
        Err(_) => return Err(
            Error::InvalidTransaction { reason: Reason::Text("Failed to compute input value") },
        ),
        Ok(sats) => sats,
    };
    if trade.is_buy() {
        match quote {
            TradeQuote::Buy { base_cost_sats, trading_fee_sats, total_cost_sats } => {
                if *total_cost_sats as u128 + miner_fee as u128 > trade.limit_sats as u128 {
                    return Ok(
                        TradeApplyResult::Skipped { reason: Reason::BuyCostAboveLimit {
                            cost_sats: *total_cost_sats,
                            miner_fee_sats: miner_fee,
                            limit_sats: trade.limit_sats,
                        } },
                    );
                }
                state_update.add_pending_buy_settlement(
                    PendingBuySettlement {
                        market_id: trade.market_id,
                        trader_address: trade.trader,
                        input_value_sats,
                        lmsr_cost_sats: *base_cost_sats,
                        market_fee_sats: *trading_fee_sats,
                        transaction_id: txid,
                        is_amplify: false,
                    },
                );
                note_trade(state_update, &trade, txid, *total_cost_sats, *trading_fee_sats)
            },
            _ => Err(
                Error::InvalidTransaction {
                    reason: Reason::Text("Failed to calculate trade cost"),
                },
            ),
        }
    } else {
        let owned: i64 = markets.get_shares(
            &trade.trader,
            &trade.market_id,
            trade.outcome_index,
        );
        let pending: i64 = state_update.pending_share_change(
            &trade.trader,
            &trade.market_id,
            trade.outcome_index,
        );
        let effective: i128 = owned as i128 + pending as i128;
        if effective < trade.shares_abs() as i128 {
            return Err(
                Error::InvalidTransaction {
                    reason: Reason::InsufficientEffectiveShares {
                        selling: trade.shares_abs(),
                        owned,
                        effective,
                        outcome: trade.outcome_index,
                    },
                },
            );
        }
        match quote {
            TradeQuote::Sell { net_proceeds_sats, trading_fee_sats } => {
                if *net_proceeds_sats < trade.limit_sats {
                    return Ok(
                        TradeApplyResult::Skipped { reason: Reason::SellProceedsBelowLimit {
                            proceeds_sats: *net_proceeds_sats,
                            limit_sats: trade.limit_sats,
                        } },
                    );
                }
                state_update.add_pending_sell_payout(
                    PendingSellPayout {
                        market_id: trade.market_id,
                        seller_address: trade.trader,
                        payout_sats: *net_proceeds_sats,
                        fee_sats: *trading_fee_sats,
                        outcome_index: trade.outcome_index,
                        transaction_id: txid,
                    },
                );
                if input_value_sats > miner_fee {
                    state_update.add_pending_sell_input_change(
                        trade.trader,
                        input_value_sats - miner_fee,
                        txid,
                    );
                }
                note_trade(state_update, &trade, txid, *net_proceeds_sats, *trading_fee_sats)
            },
            _ => Err(
                Error::InvalidTransaction {
                    reason: Reason::Text("Failed to calculate sell proceeds"),
                },
            ),
        }
    }
}

/// What a trade that is taken back does to the account of the trader.
#[derive(Clone, Copy, Debug)]
pub struct TradeShareDelta {
    pub address: Address,
    pub market_id: MarketId,
    pub outcome_index: u32,
    pub share_delta: i64,
}

/// The shares of a market before one of its trades.
pub open spec fn shares_before(markets: MarketsView, tx: FilledTransaction) -> Result<
    Seq<i64>,
    Error,
> {
    match tx.trade_of() {
        None => Err(Error::InvalidTransaction { reason: Reason::Text("Not a trade transaction") }),
        Some(trade) => if !markets.markets.dom().contains(trade.market_id) {
            Err(
                Error::InvalidTransaction {
                    reason: Reason::Text("Market not found during trade revert"),
                },
            )
        } else if trade.shares == i64::MIN {
            Err(Error::InvalidTransaction { reason: Reason::Text("Market shares overflow") })
        } else {
            share_added(
                markets.markets[trade.market_id].shares,
                trade.outcome_index as usize,
                (-trade.shares) as i64,
            )
        },
    }
}

/// The shares of a market before one of its trades. What they are worth tells
/// the volume that the trade added.
pub fn pre_trade_shares(markets: &MarketsDatabase, filled_tx: &FilledTransaction) -> (r: Result<
    Vec<i64>,
    Error,
>)
    ensures
        match r {
            Ok(shares) => shares_before(markets@, *filled_tx) == Ok::<Seq<i64>, Error>(shares@),
            Err(e) => shares_before(markets@, *filled_tx) == Err::<Seq<i64>, Error>(e),
        },
{
    let trade = match filled_tx.trade() {
        None => return Err(
            Error::InvalidTransaction { reason: Reason::Text("Not a trade transaction") },
        ),
        Some(trade) => trade,
    };
    match markets.get_market(&trade.market_id) {
        None => Err(
            Error::InvalidTransaction {
                reason: Reason::Text("Market not found during trade revert"),
            },
        ),
        Some(market) => {
            if trade.shares == i64::MIN {
                return Err(
                    Error::InvalidTransaction { reason: Reason::Text("Market shares overflow") },
                );
            }
            let mut shares: Vec<i64> = to_vec(market.shares.as_slice());
            match add_share(&mut shares, trade.outcome_index as usize, -trade.shares) {
                Err(e) => Err(e),
                Ok(()) => Ok(shares),
            }
        },
    }
}

/// A market without one of its trades. `volume` is what the trade added to the
/// volume, if that could be worked out.
pub open spec fn trade_unmade(
    markets: MarketsView,
    tx: FilledTransaction,
    height: u32,
    volume: Option<u64>,
) -> Result<MarketsView, Error> {
    match shares_before(markets, tx) {
        Err(e) => Err(e),
        Ok(shares) => {
            let trade = tx.trade_of()->Some_0;
            match volume {
                None => Err(
                    Error::InvalidTransaction {
                        reason: Reason::Text("Price calculation failed in trade revert"),
                    },
                ),
                Some(sats) => match markets.markets[trade.market_id].volume_removed(
                    trade.outcome_index as int,
                    sats,
                ) {
                    Err(_) => Err(
                        Error::InvalidTransaction {
                            reason: Reason::Text("Volume revert failed in trade revert"),
                        },
                    ),
                    Ok(market) => Ok(
                        MarketsView {
                            markets: markets.markets.insert(
                                trade.market_id,
                                MarketView { shares, last_updated_height: height, ..market },
                            ),
                            ..markets
                        },
                    ),
                },
            }
        },
    }
}

/// The ledger without what a trade paid out.
pub open spec fn trade_coins_removed(ledger: LedgerView, trade: Trade, txid: [u8; 32])
    -> LedgerView {
    if trade.buys() {
        ledger.delete(buy_change_point(trade.market_id, trade.trader, txid))
    } else {
        ledger.delete(sell_payout_point(trade.market_id, trade.trader, txid)).delete(
            sell_input_change_point(trade.trader, txid),
        )
    }
}

/// Takes a trade out of its market, and removes what it paid out. Says how the
/// account of the trader is to be changed.
pub fn revert_trade_market_state(
    markets: &mut MarketsDatabase,
    ledger: &mut Ledger,
    filled_tx: &FilledTransaction,
    height: u32,
    volume: Option<u64>,
) -> (r: Result<TradeShareDelta, Error>)
    requires
        filled_tx.transaction.encodable(),
    ensures
        match r {
            Ok(delta) => {
                let trade = filled_tx.trade_of()->Some_0;
                &&& trade_unmade(old(markets)@, *filled_tx, height, volume) == Ok::<
                    MarketsView,
                    Error,
                >(final(markets)@)
                &&& final(ledger)@ == trade_coins_removed(
                    old(ledger)@,
                    trade,
                    filled_tx.transaction.id().0,
                )
                &&& delta == TradeShareDelta {
                    address: trade.trader,
                    market_id: trade.market_id,
                    outcome_index: trade.outcome_index,
                    share_delta: (-trade.shares) as i64,
                }
            },
            Err(e) => {
                &&& trade_unmade(old(markets)@, *filled_tx, height, volume) == Err::<
                    MarketsView,
                    Error,
                >(e)
                &&& *final(markets) == *old(markets)
                &&& *final(ledger) == *old(ledger)
            },
        },
{
    let shares = match pre_trade_shares(markets, filled_tx) {
        Err(e) => return Err(e),
        Ok(shares) => shares,
    };
    let trade = match filled_tx.trade() {
        None => return Err(
            Error::InvalidTransaction { reason: Reason::Text("Not a trade transaction") },
        ),
        Some(trade) => trade,
    };
    let sats: u64 = match volume {
        None => return Err(
            Error::InvalidTransaction {
                reason: Reason::Text("Price calculation failed in trade revert"),
            },
        ),
        Some(sats) => sats,
    };
    let mut market = match markets.get_market(&trade.market_id) {
        None => return Err(
            Error::InvalidTransaction {
                reason: Reason::Text("Market not found during trade revert"),
            },
        ),
        Some(market) => market.replica(),
    };
    match market.revert_trading_volume(trade.outcome_index as usize, sats) {
        Err(_) => return Err(
            Error::InvalidTransaction {
                reason: Reason::Text("Volume revert failed in trade revert"),
            },
        ),
        Ok(()) => {},
    }
    market.shares = shares;
    market.last_updated_height = height;
    markets.update_market(&trade.market_id, market);
    let txid = filled_tx.txid().0;
    if trade.is_buy() {
        let change = StateUpdate::generate_buy_change_outpoint(&trade.market_id, &trade.trader, txid);
        let _ = ledger.delete_utxo(&change);
    } else {
        let payout = StateUpdate::generate_sell_payout_outpoint(&trade.market_id, &trade.trader, txid);
        let _ = ledger.delete_utxo(&payout);
        let change = StateUpdate::generate_sell_input_change_outpoint(&trade.trader, txid);
        let _ = ledger.delete_utxo(&change);
    }
    Ok(
        TradeShareDelta {
            address: trade.trader,
            market_id: trade.market_id,
            outcome_index: trade.outcome_index,
            share_delta: -trade.shares,
        },
    )
}

/// What an author who deepens a market makes of an update.
pub open spec fn amplify_applied(update: StateUpdateView, tx: FilledTransaction) -> Result<
    StateUpdateView,
    Error,
> {
    match tx.transaction.data {
        Some(TransactionData::AmplifyBeta { market_id, amount, market_author }) => {
            let input = total_value(tx.spent_utxos@);
            if input > u64::MAX {
                Err(
                    Error::InvalidTransaction {
                        reason: Reason::Text("Failed to compute input value"),
                    },
                )
            } else {
                Ok(
                    StateUpdateView {
                        buys: update.buys.push(
                            PendingBuySettlement {
                                market_id,
                                trader_address: market_author,
                                input_value_sats: input as u64,
                                lmsr_cost_sats: amount,
                                market_fee_sats: 0,
                                transaction_id: tx.transaction.id().0,
                                is_amplify: true,
                            },
                        ),
                        ..update
                    },
                )
            }
        },
        _ => Err(
            Error::InvalidTransaction { reason: Reason::Text("Not an amplify_beta transaction") },
        ),
    }
}

pub fn apply_amplify_beta(filled_tx: &FilledTransaction, state_update: &mut StateUpdate) -> (r:
    Result<(), Error>)
    requires
        filled_tx.transaction.encodable(),
    ensures
        match r {
            Ok(()) => amplify_applied(old(state_update)@, *filled_tx) == Ok::<
                StateUpdateView,
                Error,
            >(final(state_update)@),
            Err(e) => amplify_applied(old(state_update)@, *filled_tx) == Err::<
                StateUpdateView,
                Error,
            >(e),
        },
{
    let amplify = match filled_tx.amplify_beta() {
        None => return Err(
            Error::InvalidTransaction { reason: Reason::Text("Not an amplify_beta transaction") },
        ),
        Some(amplify) => amplify,
    };
    let input_value_sats: u64 = match filled_tx.spent_bitcoin_value() {
        Err(_) => return Err(
            Error::InvalidTransaction { reason: Reason::Text("Failed to compute input value") },
        ),
        Ok(sats) => sats,
    };
    state_update.add_pending_buy_settlement(
        PendingBuySettlement {
            market_id: amplify.market_id,
            trader_address: amplify.market_author,
            input_value_sats,
            lmsr_cost_sats: amplify.amount,
            market_fee_sats: 0,
            transaction_id: filled_tx.txid().0,
            is_amplify: true,
        },
    );
    Ok(())
}

/// A market without what its author has added.
pub open spec fn amplify_unmade(markets: MarketsView, tx: FilledTransaction) -> Result<
    MarketsView,
    Error,
> {
    match tx.transaction.data {
        Some(TransactionData::AmplifyBeta { market_id, amount, market_author }) => {
            if !markets.markets.dom().contains(market_id) {
                Err(
                    Error::InvalidTransaction {
                        reason: Reason::Text("Market not found during amplify_beta revert"),
                    },
                )
            } else if markets.markets[market_id].liquidity_base_sats < amount {
                Err(
                    Error::InvalidTransaction {
                        reason: Reason::Text("Liquidity base underflow during amplify_beta revert"),
                    },
                )
            } else {
                let market = markets.markets[market_id];
                Ok(
                    MarketsView {
                        markets: markets.markets.insert(
                            market_id,
                            MarketView {
                                liquidity_base_sats: (market.liquidity_base_sats - amount) as u64,
                                ..market
                            },
                        ),
                        ..markets
                    },
                )
            }
        },
        _ => Err(
            Error::InvalidTransaction { reason: Reason::Text("Not an amplify_beta transaction") },
        ),
    }
}

pub fn revert_amplify_beta(markets: &mut MarketsDatabase, filled_tx: &FilledTransaction) -> (r:
    Result<(), Error>)
    ensures
        match r {
            Ok(()) => amplify_unmade(old(markets)@, *filled_tx) == Ok::<MarketsView, Error>(
                final(markets)@,
            ),
            Err(e) => {
                &&& amplify_unmade(old(markets)@, *filled_tx) == Err::<MarketsView, Error>(e)
                &&& *final(markets) == *old(markets)
            },
        },
{
    let amplify = match filled_tx.amplify_beta() {
        None => return Err(
            Error::InvalidTransaction { reason: Reason::Text("Not an amplify_beta transaction") },
        ),
        Some(amplify) => amplify,
    };
    let mut market = match markets.get_market(&amplify.market_id) {
        None => return Err(
            Error::InvalidTransaction {
                reason: Reason::Text("Market not found during amplify_beta revert"),
            },
        ),
        Some(market) => market.replica(),
    };
    match market.liquidity_base_sats.checked_sub(amplify.amount) {
        None => return Err(
            Error::InvalidTransaction {
                reason: Reason::Text("Liquidity base underflow during amplify_beta revert"),
            },
        ),
        Some(base) => {
            market.liquidity_base_sats = base;
        },
    }
    markets.update_market(&amplify.market_id, market);
    Ok(())
}

} // verus!
