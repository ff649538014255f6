//! The transactions of the next block.

use vstd::prelude::*;

use crate::bytes::to_vec;
use crate::mempool::{deleted, pool_fits, trades_listed, MemPool, MemPoolView};
use crate::state::block::trades::{share_added, TradeQuote};
use crate::state::ledger::{outputs_named, Ledger};
use crate::state::markets::database::{account_of, MarketsDatabase, MarketsView};
use crate::state::markets::types::{position, MarketError, MarketId};
use crate::state::{Error, Reason};
use crate::table::{rows_of, Table};
use crate::types::encoding::Encode;
use crate::types::transaction::output::FilledOutput;
use crate::types::transaction::{
    checked_total, magnitude, total_value, Authorized, AuthorizedTransaction, FilledTransaction,
    OutPoint,
};
use crate::types::{AmountOverflowError, AmountUnderflowError, Duplicate, Txid};

verus! {

/// A list holds a transaction with this id.
pub open spec fn lists(txs: Seq<AuthorizedTransaction>, txid: Txid) -> bool {
    exists|i: int| 0 <= i < txs.len() && (#[trigger] txs[i]).transaction.id() == txid
}

/// The transactions of a list that are not in another.
pub open spec fn not_listed(txs: Seq<AuthorizedTransaction>, others: Seq<AuthorizedTransaction>)
    -> Seq<AuthorizedTransaction>
    decreases txs.len(),
{
    if txs.len() == 0 {
        Seq::empty()
    } else {
        let before = not_listed(txs.drop_last(), others);
        if lists(others, txs.last().transaction.id()) {
            before
        } else {
            before.push(txs.last())
        }
    }
}

/// The first transactions of a pool, in the order of their ids.
pub open spec fn first_of(pool: MemPoolView, number: nat) -> Seq<AuthorizedTransaction> {
    let rows = rows_of(pool.txs);
    Seq::new(
        if number <= rows.len() {
            number
        } else {
            rows.len()
        },
        |i: int| rows[i].1,
    )
}

/// The transactions that may go into a block: those that are not trades, then
/// the trades in the order in which they came in; so many at most.
pub open spec fn candidates_of(pool: MemPoolView, number: nat) -> Seq<AuthorizedTransaction> {
    let trades = trades_listed(pool.txs, rows_of(pool.trades));
    let all = not_listed(first_of(pool, number), trades) + trades;
    all.subrange(
        0,
        if number <= all.len() {
            number as int
        } else {
            all.len() as int
        },
    )
}

/// The transactions of a list can be encoded.
pub open spec fn list_fits(txs: Seq<AuthorizedTransaction>) -> bool {
    forall|i: int| 0 <= i < txs.len() ==> (#[trigger] txs[i]).transaction.encodable()
}

fn is_listed(txs: &Vec<AuthorizedTransaction>, txid: &Txid) -> (r: bool)
    requires
        list_fits(txs@),
    ensures
        r == lists(txs@, *txid),
{
    let mut i: usize = 0;
    while i < txs.len()
        invariant
            i <= txs@.len(),
            list_fits(txs@),
            forall|j: int| 0 <= j < i ==> (#[trigger] txs@[j]).transaction.id() != *txid,
        decreases txs@.len() - i,
    {
        if txs[i].transaction.txid() == *txid {
            assert(txs@[i as int].transaction.id() == *txid);
            return true;
        }
        i += 1;
    }
    false
}

proof fn lemma_trades_fit(pool: MemPoolView, rows: Seq<(u64, Txid)>)
    requires
        pool_fits(pool),
    ensures
        list_fits(trades_listed(pool.txs, rows)),
    decreases rows.len(),
{
    if rows.len() > 0 {
        lemma_trades_fit(pool, rows.drop_last());
        let before = trades_listed(pool.txs, rows.drop_last());
        let after = trades_listed(pool.txs, rows);
        assert forall|i: int| 0 <= i < after.len() implies (
        #[trigger] after[i]).transaction.encodable() by {
            if i < before.len() {
                assert(after[i] == before[i]);
            }
        }
    }
}

/// Lists the transactions that may go into a block.
pub fn candidates(mempool: &MemPool, number: usize) -> (r: Vec<AuthorizedTransaction>)
    requires
        pool_fits(mempool@),
    ensures
        r@ == candidates_of(mempool@, number as nat),
        list_fits(r@),
{
    mempool.transactions.rows_facts();
    let all = mempool.take(number);
    let trades = mempool.take_trades_ordered();
    proof {
        lemma_trades_fit(mempool@, rows_of(mempool@.trades));
        assert(all@ =~= first_of(mempool@, number as nat));
    }
    let mut list: Vec<AuthorizedTransaction> = Vec::new();
    let mut i: usize = 0;
    assert(all@.subrange(0, 0) =~= Seq::empty());
    while i < all.len()
        invariant
            i <= all@.len(),
            list_fits(trades@),
            list_fits(list@),
            pool_fits(mempool@),
            all@ == first_of(mempool@, number as nat),
            forall|k: int|
                0 <= k < all@.len() ==> (#[trigger] all@[k]).transaction.encodable(),
            list@ == not_listed(all@.subrange(0, i as int), trades@),
        decreases all@.len() - i,
    {
        proof {
            assert(all@.subrange(0, i + 1).drop_last() =~= all@.subrange(0, i as int));
        }
        let txid = all[i].transaction.txid();
        if !is_listed(&trades, &txid) {
            list.push(all[i].duplicate());
        }
        i += 1;
    }
    assert(all@.subrange(0, i as int) =~= all@);
    let ghost plain = list@;
    let mut k: usize = 0;
    assert(plain + trades@.subrange(0, 0) =~= plain);
    while k < trades.len()
        invariant
            k <= trades@.len(),
            list_fits(trades@),
            list_fits(list@),
            list@ == plain + trades@.subrange(0, k as int),
        decreases trades@.len() - k,
    {
        list.push(trades[k].duplicate());
        assert(list@ =~= plain + trades@.subrange(0, k + 1));
        k += 1;
    }
    assert(trades@.subrange(0, k as int) =~= trades@);
    list.truncate(number);
    assert(list@ =~= candidates_of(mempool@, number as nat));
    list
}

/// What a trade in a block template is priced by: the shares of its market with
/// the trades before it, and with it.
pub open spec fn slippage_shares(
    markets: MarketsView,
    running: Map<MarketId, Seq<i64>>,
    tx: FilledTransaction,
) -> Result<(Seq<i64>, Seq<i64>), Error> {
    let trade = tx.trade_of()->Some_0;
    let current = if running.dom().contains(trade.market_id) {
        running[trade.market_id]
    } else {
        markets.markets[trade.market_id].shares
    };
    match share_added(current, trade.outcome_index as usize, trade.shares) {
        Err(e) => Err(e),
        Ok(new) => Ok((current, new)),
    }
}

/// Whether a trade keeps to its limit after the trades before it, and the
/// shares of markets with it. A trade that does not is left for a later block.
pub open spec fn slippage_checked(
    markets: MarketsView,
    running: Map<MarketId, Seq<i64>>,
    tx: FilledTransaction,
    quote: TradeQuote,
) -> Result<(bool, Map<MarketId, Seq<i64>>), Error> {
    match tx.trade_of() {
        None => Ok((true, running)),
        Some(trade) => if !markets.markets.dom().contains(trade.market_id) {
            Ok((false, running))
        } else if !trade.buys() && account_of(markets.accounts, trade.trader).shares(
            position(trade.market_id, trade.outcome_index),
        ) < magnitude(trade.shares) {
            Ok((false, running))
        } else {
            match slippage_shares(markets, running, tx) {
                Err(e) => Err(e),
                Ok((current, new)) => {
                    let kept = running.insert(trade.market_id, new);
                    if trade.buys() {
                        match quote {
                            TradeQuote::Buy {
                                base_cost_sats,
                                trading_fee_sats,
                                total_cost_sats,
                            } => if total_cost_sats > trade.limit_sats {
                                Ok((false, running))
                            } else {
                                Ok((true, kept))
                            },
                            _ => Err(
                                Error::InvalidTransaction {
                                    reason: Reason::Text("Buy cost calculation failed"),
                                },
                            ),
                        }
                    } else {
                        match quote {
                            TradeQuote::Sell { net_proceeds_sats, trading_fee_sats } => {
                                if trade.limit_sats > 0 && net_proceeds_sats < trade.limit_sats {
                                    Ok((false, running))
                                } else {
                                    Ok((true, kept))
                                }
                            },
                            _ => Err(
                                Error::InvalidTransaction {
                                    reason: Reason::Text("Sell proceeds calculation failed"),
                                },
                            ),
                        }
                    }
                },
            }
        },
    }
}

pub open spec fn running_view(m: Map<MarketId, Vec<i64>>) -> Map<MarketId, Seq<i64>> {
    m.map_values(|shares: Vec<i64>| shares@)
}

/// What a trade is priced by, where it comes to a price.
pub fn slippage_terms(
    markets: &MarketsDatabase,
    running: &Table<MarketId, Vec<i64>>,
    tx: &FilledTransaction,
) -> (r: Option<Result<(Vec<i64>, Vec<i64>), Error>>)
    ensures
        match tx.trade_of() {
            None => r is None,
            Some(trade) => if !markets@.markets.dom().contains(trade.market_id) {
                r is None
            } else {
                match r {
                    None => false,
                    Some(Ok((current, new))) => slippage_shares(
                        markets@,
                        running_view(running@),
                        *tx,
                    ) == Ok::<(Seq<i64>, Seq<i64>), Error>((current@, new@)),
                    Some(Err(e)) => slippage_shares(markets@, running_view(running@), *tx) == Err::<
                        (Seq<i64>, Seq<i64>),
                        Error,
                    >(e),
                }
            },
        },
{
    let trade = match tx.trade() {
        None => return None,
        Some(trade) => trade,
    };
    let market = match markets.get_market(&trade.market_id) {
        None => return None,
        Some(market) => market,
    };
    let current: Vec<i64> = match running.get(&trade.market_id) {
        Some(shares) => to_vec(shares.as_slice()),
        None => to_vec(market.shares.as_slice()),
    };
    let outcome: usize = trade.outcome_index as usize;
    if outcome >= current.len() {
        return Some(Err(Error::Market(MarketError::InvalidOutcomeIndex(outcome))));
    }
    match current[outcome].checked_add(trade.shares) {
        None => Some(Err(
            Error::InvalidTransaction { reason: Reason::Text("Market shares overflow") },
        )),
        Some(sum) => {
            let mut new: Vec<i64> = to_vec(current.as_slice());
            new[outcome] = sum;
            Some(Ok((current, new)))
        },
    }
}

/// Checks that a trade keeps to its limit after the trades before it, and notes
/// the shares of its market with it.
pub fn check_trade_slippage(
    markets: &MarketsDatabase,
    running: &mut Table<MarketId, Vec<i64>>,
    tx: &FilledTransaction,
    quote: &TradeQuote,
) -> (r: Result<bool, Error>)
    ensures
        match r {
            Ok(kept) => slippage_checked(markets@, running_view(old(running)@), *tx, *quote)
                == Ok::<(bool, Map<MarketId, Seq<i64>>), Error>(
                (kept, running_view(final(running)@)),
            ),
            Err(e) => {
                &&& slippage_checked(markets@, running_view(old(running)@), *tx, *quote) == Err::<
                    (bool, Map<MarketId, Seq<i64>>),
                    Error,
                >(e)
                &&& *final(running) == *old(running)
            },
        },
{
    let trade = match tx.trade() {
        None => return Ok(true),
        Some(trade) => trade,
    };
    if markets.get_market(&trade.market_id).is_none() {
        return Ok(false);
    }
    if !trade.is_buy() {
        let owned: i64 = markets.get_shares(&trade.trader, &trade.market_id, trade.outcome_index);
        if owned < 0 || (owned as u64) < trade.shares_abs() {
            return Ok(false);
        }
    }
    let new = match slippage_terms(markets, running, tx) {
        None => return Ok(false),
        Some(Err(e)) => return Err(e),
        Some(Ok((_, new))) => new,
    };
    if trade.is_buy() {
        match quote {
            TradeQuote::Buy { total_cost_sats, .. } => if *total_cost_sats > trade.limit_sats {
                return Ok(false);
            },
            _ => return Err(
                Error::InvalidTransaction { reason: Reason::Text("Buy cost calculation failed") },
            ),
        }
    } else {
        match quote {
            TradeQuote::Sell { net_proceeds_sats, .. } => if trade.limit_sats > 0
                && *net_proceeds_sats < trade.limit_sats {
                return Ok(false);
            },
            _ => return Err(
                Error::InvalidTransaction {
                    reason: Reason::Text("Sell proceeds calculation failed"),
                },
            ),
        }
    }
    let ghost m = running@;
    running.put(trade.market_id, new);
    assert(running_view(m.insert(trade.market_id, new)) =~= running_view(m).insert(
        trade.market_id,
        new@,
    ));
    Ok(true)
}

/// A block in the making.
pub struct BlockTemplate {
    pub transactions: Vec<Authorized<FilledTransaction>>,
    pub fee: u64,
    /// The coins that its transactions spend.
    pub spent_utxos: Table<OutPoint, ()>,
    /// The shares of markets with its trades.
    pub market_shares: Table<MarketId, Vec<i64>>,
}

#[verifier::ext_equal]
pub struct TemplateView {
    pub transactions: Seq<Authorized<FilledTransaction>>,
    pub fee: u64,
    pub spent: Map<OutPoint, ()>,
    pub shares: Map<MarketId, Seq<i64>>,
}

impl View for BlockTemplate {
    type V = TemplateView;

    open spec fn view(&self) -> TemplateView {
        TemplateView {
            transactions: self.transactions@,
            fee: self.fee,
            spent: self.spent_utxos@,
            shares: running_view(self.market_shares@),
        }
    }
}

/// What becomes of a transaction that may go into a block.
#[derive(Clone, Copy, Debug, PartialEq, Eq, Structural)]
pub enum Considered {
    /// It goes into the block.
    Taken,
    /// It waits for a later block.
    Skipped,
    /// It is deleted from the pool.
    Deleted,
}

/// One of the inputs is spent.
pub open spec fn spends_any(spent: Map<OutPoint, ()>, inputs: Seq<OutPoint>) -> bool {
    exists|i: int| 0 <= i < inputs.len() && spent.dom().contains(#[trigger] inputs[i])
}

/// Some coins, with the inputs of a transaction.
pub open spec fn with_inputs(spent: Map<OutPoint, ()>, inputs: Seq<OutPoint>) -> Map<OutPoint, ()>
    decreases inputs.len(),
{
    if inputs.len() == 0 {
        spent
    } else {
        with_inputs(spent, inputs.drop_last()).insert(inputs.last(), ())
    }
}

/// A signed transaction with the coins that it spends.
pub open spec fn is_filled_from(
    filled: Authorized<FilledTransaction>,
    tx: AuthorizedTransaction,
    coins: Seq<FilledOutput>,
) -> bool {
    &&& filled.transaction.transaction == tx.transaction
    &&& filled.transaction.spent_utxos@ == coins
    &&& filled.transaction.actor_address is None
    &&& filled.authorizations == tx.authorizations
    &&& filled.actor_proof == tx.actor_proof
}

/// What the miner gets for a transaction.
pub open spec fn template_fee(tx: FilledTransaction, miner_fee: u64) -> Result<u64, Error> {
    let spent = total_value(tx.spent_utxos@);
    let out = total_value(tx.transaction.outputs@);
    if tx.trade_of() is Some {
        Ok(miner_fee)
    } else if spent > u64::MAX || out > u64::MAX || spent < out {
        Err(Error::AmountOverflow(AmountOverflowError))
    } else {
        Ok((spent - out) as u64)
    }
}

/// What is made of a block when a filled transaction is considered: a trade
/// that does not keep to its limit, or has no price, waits; another transaction
/// goes into the block.
pub open spec fn filled_considered(
    markets: MarketsView,
    before: TemplateView,
    filled: Authorized<FilledTransaction>,
    quote: TradeQuote,
    miner_fee: u64,
) -> Result<(Considered, TemplateView), Error> {
    match slippage_checked(markets, before.shares, filled.transaction, quote) {
        Err(_) => Ok((Considered::Skipped, before)),
        Ok((false, _)) => Ok((Considered::Skipped, before)),
        Ok((true, shares)) => match template_fee(filled.transaction, miner_fee) {
            Err(e) => Err(e),
            Ok(fee) => if before.fee + fee > u64::MAX {
                Err(Error::AmountUnderflow(AmountUnderflowError))
            } else {
                Ok(
                    (
                        Considered::Taken,
                        TemplateView {
                            transactions: before.transactions.push(filled),
                            fee: (before.fee + fee) as u64,
                            spent: with_inputs(
                                before.spent,
                                filled.transaction.transaction.inputs@,
                            ),
                            shares,
                        },
                    ),
                )
            },
        },
    }
}

/// A transaction that may go into a block cannot: it spends a coin of the
/// block, or a coin that is not there.
pub open spec fn is_spoiled(
    utxos: Map<OutPoint, FilledOutput>,
    spent: Map<OutPoint, ()>,
    inputs: Seq<OutPoint>,
) -> bool {
    spends_any(spent, inputs) || outputs_named(utxos, inputs) is Err
}

fn spends_one(spent: &Table<OutPoint, ()>, inputs: &Box<[OutPoint]>) -> (r: bool)
    ensures
        r == spends_any(spent@, inputs@),
{
    let mut i: usize = 0;
    while i < inputs.len()
        invariant
            i <= inputs@.len(),
            forall|j: int| 0 <= j < i ==> !spent@.dom().contains(#[trigger] inputs@[j]),
        decreases inputs@.len() - i,
    {
        if spent.contains(&inputs[i]) {
            assert(spent@.dom().contains(inputs@[i as int]));
            return true;
        }
        i += 1;
    }
    false
}

fn add_inputs(spent: &mut Table<OutPoint, ()>, inputs: &Box<[OutPoint]>)
    ensures
        final(spent)@ == with_inputs(old(spent)@, inputs@),
{
    let mut i: usize = 0;
    assert(inputs@.subrange(0, 0) =~= Seq::empty());
    while i < inputs.len()
        invariant
            i <= inputs@.len(),
            spent@ == with_inputs(old(spent)@, inputs@.subrange(0, i as int)),
        decreases inputs@.len() - i,
    {
        assert(inputs@.subrange(0, i + 1).drop_last() =~= inputs@.subrange(0, i as int));
        spent.put(inputs[i], ());
        i += 1;
    }
    assert(inputs@.subrange(0, i as int) =~= inputs@);
}

fn fee_in_template(tx: &FilledTransaction, miner_fee: u64) -> (r: Result<u64, Error>)
    ensures
        r == template_fee(*tx, miner_fee),
{
    if tx.trade().is_some() {
        return Ok(miner_fee);
    }
    let value_in: u64 = match checked_total(&tx.spent_utxos) {
        None => return Err(Error::AmountOverflow(AmountOverflowError)),
        Some(value) => value,
    };
    let value_out: u64 = match checked_total(&tx.transaction.outputs) {
        None => return Err(Error::AmountOverflow(AmountOverflowError)),
        Some(value) => value,
    };
    match value_in.checked_sub(value_out) {
        None => Err(Error::AmountOverflow(AmountOverflowError)),
        Some(fee) => Ok(fee),
    }
}

impl BlockTemplate {
    pub fn new() -> (r: Self)
        ensures
            r@ == (TemplateView {
                transactions: Seq::empty(),
                fee: 0,
                spent: Map::empty(),
                shares: Map::empty(),
            }),
    {
        let r = BlockTemplate {
            transactions: Vec::new(),
            fee: 0,
            spent_utxos: Table::new(),
            market_shares: Table::new(),
        };
        assert(r@.shares =~= Map::empty());
        r
    }

    fn consider_filled(
        &mut self,
        markets: &MarketsDatabase,
        filled: Authorized<FilledTransaction>,
        quote: &TradeQuote,
        miner_fee: u64,
    ) -> (r: Result<Considered, Error>)
        ensures
            match r {
                Ok(considered) => filled_considered(
                    markets@,
                    old(self)@,
                    filled,
                    *quote,
                    miner_fee,
                ) == Ok::<(Considered, TemplateView), Error>((considered, final(self)@)),
                Err(e) => filled_considered(markets@, old(self)@, filled, *quote, miner_fee)
                    == Err::<(Considered, TemplateView), Error>(e),
            },
    {
        match check_trade_slippage(
            markets,
            &mut self.market_shares,
            &filled.transaction,
            quote,
        ) {
            Err(_) => return Ok(Considered::Skipped),
            Ok(false) => {
                assert(self@ =~= old(self)@);
                return Ok(Considered::Skipped);
            },
            Ok(true) => {},
        }
        let fee: u64 = match fee_in_template(&filled.transaction, miner_fee) {
            Err(e) => return Err(e),
            Ok(fee) => fee,
        };
        self.fee = match self.fee.checked_add(fee) {
            None => return Err(Error::AmountUnderflow(AmountUnderflowError)),
            Some(sum) => sum,
        };
        add_inputs(&mut self.spent_utxos, &filled.transaction.transaction.inputs);
        self.transactions.push(filled);
        Ok(Considered::Taken)
    }

    /// Considers a transaction for the block. One that cannot go into it is
    /// deleted from the pool. `quote` is the price of a trade by
    /// [`slippage_terms`].
    pub fn consider(
        &mut self,
        ledger: &Ledger,
        markets: &MarketsDatabase,
        mempool: &mut MemPool,
        tx: AuthorizedTransaction,
        quote: &TradeQuote,
        miner_fee: u64,
    ) -> (r: Result<Considered, Error>)
        requires
            tx.transaction.encodable(),
            pool_fits(old(mempool)@),
        ensures
            pool_fits(final(mempool)@),
            if is_spoiled(ledger@.utxos, old(self)@.spent, tx.transaction.inputs@) {
                &&& r == Ok::<Considered, Error>(Considered::Deleted)
                &&& final(self)@ == old(self)@
                &&& final(mempool)@ == deleted(old(mempool)@, seq![tx.transaction.id()])
            } else {
                &&& final(mempool)@ == old(mempool)@
                &&& exists|filled: Authorized<FilledTransaction>| #[trigger]
                    is_filled_from(
                        filled,
                        tx,
                        outputs_named(ledger@.utxos, tx.transaction.inputs@)->Ok_0,
                    ) && filled_considered(markets@, old(self)@, filled, *quote, miner_fee)
                        == match r {
                        Ok(considered) => Ok((considered, final(self)@)),
                        Err(e) => Err(e),
                    }
            },
    {
        let txid = tx.transaction.txid();
        if spends_one(&self.spent_utxos, &tx.transaction.inputs) {
            mempool.delete(txid);
            return Ok(Considered::Deleted);
        }
        let ghost signed = tx;
        let filled = match ledger.fill_authorized_transaction(tx) {
            Err(_) => {
                mempool.delete(txid);
                return Ok(Considered::Deleted);
            },
            Ok(filled) => filled,
        };
        let ghost whole = filled;
        let ghost before = self@;
        let r = self.consider_filled(markets, filled, quote, miner_fee);
        proof {
            let coins = outputs_named(ledger@.utxos, signed.transaction.inputs@)->Ok_0;
            assert(is_filled_from(whole, signed, coins));
            assert(filled_considered(markets@, before, whole, *quote, miner_fee) == match r {
                Ok(considered) => Ok::<(Considered, TemplateView), Error>((considered, self@)),
                Err(e) => Err(e),
            });
        }
        r
    }
}

/// Taking a transaction keeps the coins of a block apart: none of the coins
/// that it spends was spent by the block before, and all are afterwards.
pub proof fn blocks_spend_no_coin_twice(
    markets: MarketsView,
    utxos: Map<OutPoint, FilledOutput>,
    before: TemplateView,
    filled: Authorized<FilledTransaction>,
    quote: TradeQuote,
    miner_fee: u64,
    after: TemplateView,
)
    requires
        !is_spoiled(utxos, before.spent, filled.transaction.transaction.inputs@),
        filled_considered(markets, before, filled, quote, miner_fee) == Ok::<
            (Considered, TemplateView),
            Error,
        >((Considered::Taken, after)),
    ensures
        forall|i: int|
            0 <= i < filled.transaction.transaction.inputs@.len() ==> !before.spent.dom().contains(
                #[trigger] filled.transaction.transaction.inputs@[i],
            ) && after.spent.dom().contains(filled.transaction.transaction.inputs@[i]),
{
    lemma_inputs_noted(before.spent, filled.transaction.transaction.inputs@);
}

proof fn lemma_inputs_noted(spent: Map<OutPoint, ()>, inputs: Seq<OutPoint>)
    ensures
        forall|i: int|
            0 <= i < inputs.len() ==> with_inputs(spent, inputs).dom().contains(
                #[trigger] inputs[i],
            ),
    decreases inputs.len(),
{
    if inputs.len() > 0 {
        lemma_inputs_noted(spent, inputs.drop_last());
        assert forall|i: int| 0 <= i < inputs.len() implies with_inputs(
            spent,
            inputs,
        ).dom().contains(#[trigger] inputs[i]) by {
            if i < inputs.len() - 1 {
                assert(inputs.drop_last()[i] == inputs[i]);
            }
        }
    }
}

} // verus!
