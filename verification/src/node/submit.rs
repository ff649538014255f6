//! What becomes of a submitted transaction.

use vstd::prelude::*;

use crate::authorization::BatchVerificationContext;
use crate::bytes::to_vec;
use crate::mempool::{tx_put, MemPool, MemPoolView};
use crate::node::Node;
use crate::state::block::trades::share_added;
use crate::state::decisions::types::FUTURE_PERIODS;
use crate::state::markets::database::{MarketsDatabase, MarketsView};
use crate::state::markets::types::{MarketError, MarketId};
use crate::state::{Error, Reason, State};
use crate::types::encoding::Encode;
use crate::types::transaction::{AuthorizedTransaction, TransactionData};
use crate::validation::block::{check_figures_fit, is_checked, BlockValidator, CheckFigures};
use crate::validation::market::TradeLimits;

verus! {

/// Why a transaction is refused.
#[derive(Debug)]
pub enum SubmitError {
    State(Error),
    Mempool(crate::mempool::Error),
}

/// The shares of a market with the trades that wait for a block, and one more.
pub open spec fn waiting_shares(
    markets: MarketsView,
    m: MarketId,
    outcome_index: u32,
    delta: i64,
) -> Result<Seq<i64>, Error> {
    share_added(
        if markets.mempool_shares.dom().contains(m) {
            markets.mempool_shares[m]
        } else {
            markets.markets[m].shares
        },
        outcome_index as usize,
        delta,
    )
}

/// The shares that wait for a block, with a trade. `valid` says whether the
/// market maker can price them. Trades in a closed market change nothing.
pub open spec fn trade_waits(
    markets: MarketsView,
    m: MarketId,
    outcome_index: u32,
    delta: i64,
    valid: bool,
) -> Result<MarketsView, Error> {
    if !markets.markets.dom().contains(m) {
        Err(Error::InvalidDecisionId { reason: Reason::MarketDoesNotExist(m) })
    } else if !(markets.markets[m].state is Trading) {
        Ok(markets)
    } else if outcome_index >= markets.markets[m].shares.len() {
        Err(
            Error::InvalidDecisionId {
                reason: Reason::OutcomeIndexExceeds {
                    index: outcome_index,
                    outcomes: markets.markets[m].shares.len() as usize,
                },
            },
        )
    } else {
        match waiting_shares(markets, m, outcome_index, delta) {
            Err(e) => Err(e),
            Ok(shares) => if !valid {
                Err(
                    Error::InvalidDecisionId {
                        reason: Reason::Text("Invalid LMSR state after mempool update"),
                    },
                )
            } else {
                Ok(
                    MarketsView {
                        mempool_shares: markets.mempool_shares.insert(m, shares),
                        ..markets
                    },
                )
            },
        }
    }
}

/// The shares of a market with the trades that wait for a block, and one more;
/// none if there is no such market.
pub fn shares_in_waiting(
    markets: &MarketsDatabase,
    market_id: &MarketId,
    outcome_index: u32,
    delta: i64,
) -> (r: Option<Result<Vec<i64>, Error>>)
    ensures
        match r {
            None => !markets@.markets.dom().contains(*market_id),
            Some(Ok(shares)) => markets@.markets.dom().contains(*market_id) && waiting_shares(
                markets@,
                *market_id,
                outcome_index,
                delta,
            ) == Ok::<Seq<i64>, Error>(shares@),
            Some(Err(e)) => markets@.markets.dom().contains(*market_id) && waiting_shares(
                markets@,
                *market_id,
                outcome_index,
                delta,
            ) == Err::<Seq<i64>, Error>(e),
        },
{
    let market = match markets.get_market(market_id) {
        None => return None,
        Some(market) => market,
    };
    let mut shares: Vec<i64> = match markets.get_mempool_shares(market_id) {
        Some(shares) => to_vec(shares.as_slice()),
        None => to_vec(market.shares.as_slice()),
    };
    let outcome: usize = outcome_index as usize;
    if outcome >= shares.len() {
        return Some(Err(Error::Market(MarketError::InvalidOutcomeIndex(outcome))));
    }
    match shares[outcome].checked_add(delta) {
        None => Some(Err(
            Error::InvalidTransaction { reason: Reason::Text("Market shares overflow") },
        )),
        Some(sum) => {
            shares[outcome] = sum;
            Some(Ok(shares))
        },
    }
}

fn update_mempool_trade(
    markets: &mut MarketsDatabase,
    market_id: &MarketId,
    outcome_index: u32,
    delta: i64,
    valid: bool,
) -> (r: Result<(), Error>)
    ensures
        match r {
            Ok(()) => trade_waits(old(markets)@, *market_id, outcome_index, delta, valid) == Ok::<
                MarketsView,
                Error,
            >(final(markets)@),
            Err(e) => {
                &&& trade_waits(old(markets)@, *market_id, outcome_index, delta, valid) == Err::<
                    MarketsView,
                    Error,
                >(e)
                &&& *final(markets) == *old(markets)
            },
        },
{
    match markets.get_market(market_id) {
        None => return Err(
            Error::InvalidDecisionId { reason: Reason::MarketDoesNotExist(*market_id) },
        ),
        Some(market) => {
            if !market.state.allows_trading() {
                return Ok(());
            }
            if outcome_index as usize >= market.shares.len() {
                return Err(
                    Error::InvalidDecisionId {
                        reason: Reason::OutcomeIndexExceeds {
                            index: outcome_index,
                            outcomes: market.shares.len(),
                        },
                    },
                );
            }
        },
    }
    match shares_in_waiting(markets, market_id, outcome_index, delta) {
        None => Ok(()),
        Some(Err(e)) => Err(e),
        Some(Ok(shares)) => {
            if !valid {
                return Err(
                    Error::InvalidDecisionId {
                        reason: Reason::Text("Invalid LMSR state after mempool update"),
                    },
                );
            }
            markets.put_mempool_shares(market_id, shares);
            Ok(())
        },
    }
}

/// Adds bought shares to those that wait for a block.
pub fn update_mempool_buy(
    markets: &mut MarketsDatabase,
    market_id: &MarketId,
    outcome_index: u32,
    shares_to_buy: i64,
    valid: bool,
) -> (r: Result<(), Error>)
    ensures
        match r {
            Ok(()) => trade_waits(old(markets)@, *market_id, outcome_index, shares_to_buy, valid)
                == Ok::<MarketsView, Error>(final(markets)@),
            Err(e) => {
                &&& trade_waits(old(markets)@, *market_id, outcome_index, shares_to_buy, valid)
                    == Err::<MarketsView, Error>(e)
                &&& *final(markets) == *old(markets)
            },
        },
{
    update_mempool_trade(markets, market_id, outcome_index, shares_to_buy, valid)
}

/// Takes sold shares from those that wait for a block.
pub fn update_mempool_sell(
    markets: &mut MarketsDatabase,
    market_id: &MarketId,
    outcome_index: u32,
    shares_to_sell: i64,
    valid: bool,
) -> (r: Result<(), Error>)
    requires
        shares_to_sell != i64::MIN,
    ensures
        match r {
            Ok(()) => trade_waits(
                old(markets)@,
                *market_id,
                outcome_index,
                (-shares_to_sell) as i64,
                valid,
            ) == Ok::<MarketsView, Error>(final(markets)@),
            Err(e) => {
                &&& trade_waits(
                    old(markets)@,
                    *market_id,
                    outcome_index,
                    (-shares_to_sell) as i64,
                    valid,
                ) == Err::<MarketsView, Error>(e)
                &&& *final(markets) == *old(markets)
            },
        },
{
    update_mempool_trade(markets, market_id, outcome_index, -shares_to_sell, valid)
}

/// A transaction is put into the pool. A trade joins those that wait for a
/// block.
pub open spec fn admitted(
    markets: MarketsView,
    pool: MemPoolView,
    tx: AuthorizedTransaction,
    valid: bool,
) -> Result<(MarketsView, MemPoolView), SubmitError> {
    match tx_put(pool, tx) {
        Err(e) => Err(SubmitError::Mempool(e)),
        Ok(after) => match tx.transaction.data {
            Some(
                TransactionData::Trade {
                    market_id,
                    outcome_index,
                    shares,
                    trader,
                    limit_sats,
                    tx_pow_nonce,
                    prev_block_hash,
                },
            ) => match trade_waits(markets, market_id, outcome_index, shares, valid) {
                Err(e) => Err(SubmitError::State(e)),
                Ok(next) => Ok((next, after)),
            },
            _ => Ok((markets, after)),
        },
    }
}

/// Puts a transaction that was found valid into the pool. One that is refused
/// leaves the pool and the markets as they were.
pub fn admit_transaction(
    markets: &mut MarketsDatabase,
    mempool: &mut MemPool,
    transaction: &AuthorizedTransaction,
    valid: bool,
) -> (r: Result<(), SubmitError>)
    requires
        transaction.transaction.encodable(),
        old(mempool)@.counter != Some(u64::MAX),
    ensures
        match r {
            Ok(()) => admitted(old(markets)@, old(mempool)@, *transaction, valid) == Ok::<
                (MarketsView, MemPoolView),
                SubmitError,
            >((final(markets)@, final(mempool)@)),
            Err(e) => {
                &&& admitted(old(markets)@, old(mempool)@, *transaction, valid) == Err::<
                    (MarketsView, MemPoolView),
                    SubmitError,
                >(e)
                &&& *final(markets) == *old(markets)
                &&& *final(mempool) == *old(mempool)
            },
        },
{
    match mempool.refusal(transaction) {
        Some(e) => return Err(SubmitError::Mempool(e)),
        None => {},
    }
    match &transaction.transaction.data {
        Some(TransactionData::Trade { market_id, outcome_index, shares, .. }) => {
            match update_mempool_trade(markets, market_id, *outcome_index, *shares, valid) {
                Err(e) => return Err(SubmitError::State(e)),
                Ok(()) => {},
            }
        },
        _ => {},
    }
    mempool.enter(transaction);
    Ok(())
}

impl Node {
    /// Checks a transaction against the state, and puts it into the pool if it is
    /// valid. `valid` says whether the market maker can price the shares of a
    /// market with a trade. A transaction that is refused changes nothing.
    pub fn submit_transaction(
        &mut self,
        ctxt: &BatchVerificationContext,
        transaction: &AuthorizedTransaction,
        current_period: u32,
        figures: &CheckFigures,
        limits: &TradeLimits,
        valid: bool,
    ) -> (r: Result<u64, SubmitError>)
        requires
            current_period + FUTURE_PERIODS < u32::MAX,
            check_figures_fit(transaction.transaction.data, *figures),
            transaction.transaction.encodable(),
            old(self).mempool@.counter != Some(u64::MAX),
        ensures
            final(self).state == (State { markets: final(self).state.markets, ..old(self).state }),
            r is Err ==> *final(self) == *old(self),
            exists|checked: Result<u64, Error>| #[trigger]
                is_checked(
                    old(self).state,
                    ctxt.key(),
                    *transaction,
                    current_period,
                    *figures,
                    *limits,
                    checked,
                ) && match checked {
                    Err(e) => r == Err::<u64, SubmitError>(SubmitError::State(e)),
                    Ok(fee) => match admitted(
                        old(self).state.markets@,
                        old(self).mempool@,
                        *transaction,
                        valid,
                    ) {
                        Err(e) => r == Err::<u64, SubmitError>(e),
                        Ok((markets, pool)) => {
                            &&& r == Ok::<u64, SubmitError>(fee)
                            &&& final(self).state.markets@ == markets
                            &&& final(self).mempool@ == pool
                        },
                    },
                },
    {
        let checked = BlockValidator::validate_transaction(
            &self.state,
            ctxt,
            transaction,
            current_period,
            figures,
            limits,
        );
        assert(is_checked(
            old(self).state,
            ctxt.key(),
            *transaction,
            current_period,
            *figures,
            *limits,
            checked,
        ));
        let fee: u64 = match checked {
            Err(e) => return Err(SubmitError::State(e)),
            Ok(fee) => fee,
        };
        match admit_transaction(&mut self.state.markets, &mut self.mempool, transaction, valid) {
            Err(e) => Err(e),
            Ok(()) => Ok(fee),
        }
    }
}

} // verus!
