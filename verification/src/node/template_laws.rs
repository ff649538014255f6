//! What holds of the transactions that go into a block.

use vstd::prelude::*;

use crate::mempool::{trades_listed, MemPoolView};
use crate::node::template::{
    candidates_of, filled_considered, first_of, is_spoiled, not_listed, slippage_checked, with_inputs,
    Considered, TemplateView,
};
use crate::state::block::trades::TradeQuote;
use crate::state::ledger::outputs_named;
use crate::state::markets::database::{account_of, MarketsView};
use crate::state::markets::types::position;
use crate::state::markets::MarketId;
use crate::state::Error;
use crate::table::rows_of;
use crate::types::transaction::output::FilledOutput;
use crate::types::transaction::{
    total_value, Authorized, AuthorizedTransaction, FilledTransaction, OutPoint,
};
use crate::types::Txid;

verus! {

proof fn lemma_listed(
    txs: Map<Txid, AuthorizedTransaction>,
    rows: Seq<(u64, Txid)>,
    tx: AuthorizedTransaction,
)
    ensures
        trades_listed(txs, rows).contains(tx) <==> exists|i: int|
            0 <= i < rows.len() && txs.dom().contains((#[trigger] rows[i]).1) && txs[rows[i].1]
                == tx,
    decreases rows.len(),
{
    if rows.len() > 0 {
        let front = rows.drop_last();
        lemma_listed(txs, front, tx);
        let before = trades_listed(txs, front);
        let after = trades_listed(txs, rows);
        assert(rows[rows.len() - 1] == rows.last());
        if before.contains(tx) {
            let i = choose|i: int|
                0 <= i < front.len() && txs.dom().contains((#[trigger] front[i]).1)
                    && txs[front[i].1] == tx;
            assert(rows[i] == front[i]);
            assert(after[before.index_of(tx)] == tx);
        }
        if after.contains(tx) && !before.contains(tx) {
            let k = after.index_of(tx);
            if k < before.len() {
                assert(before[k] == tx);
            }
        }
        if exists|i: int|
            0 <= i < rows.len() && txs.dom().contains((#[trigger] rows[i]).1) && txs[rows[i].1]
                == tx {
            let i = choose|i: int|
                0 <= i < rows.len() && txs.dom().contains((#[trigger] rows[i]).1)
                    && txs[rows[i].1] == tx;
            if i < front.len() {
                assert(front[i] == rows[i]);
            } else {
                assert(after[after.len() - 1] == tx);
            }
        }
    }
}

/// The trades of a pool that are listed are those that have a number and are in the
/// pool.
pub proof fn trades_with_a_number_are_listed(pool: MemPoolView, tx: AuthorizedTransaction)
    ensures
        trades_listed(pool.txs, rows_of(pool.trades)).contains(tx) <==> exists|i: int|
            0 <= i < rows_of(pool.trades).len() && pool.txs.dom().contains(
                (#[trigger] rows_of(pool.trades)[i]).1,
            ) && pool.txs[rows_of(pool.trades)[i].1] == tx,
{
    lemma_listed(pool.txs, rows_of(pool.trades), tx);
}

/// A trade that came in before another is listed before it: the trades of the first
/// numbers come first, and those of later numbers are added behind.
pub proof fn trades_are_listed_as_they_came(
    txs: Map<Txid, AuthorizedTransaction>,
    rows: Seq<(u64, Txid)>,
    row: (u64, Txid),
)
    ensures
        txs.dom().contains(row.1) ==> {
            let after = trades_listed(txs, rows.push(row));
            &&& after.len() == trades_listed(txs, rows).len() + 1
            &&& after.drop_last() == trades_listed(txs, rows)
            &&& after.last() == txs[row.1]
        },
        !txs.dom().contains(row.1) ==> trades_listed(txs, rows.push(row)) == trades_listed(
            txs,
            rows,
        ),
{
    assert(rows.push(row).drop_last() =~= rows);
    if txs.dom().contains(row.1) {
        assert(trades_listed(txs, rows.push(row)).drop_last() =~= trades_listed(txs, rows));
    }
}

proof fn lemma_not_listed(
    txs: Seq<AuthorizedTransaction>,
    others: Seq<AuthorizedTransaction>,
    i: int,
)
    requires
        0 <= i < not_listed(txs, others).len(),
    ensures
        txs.contains(not_listed(txs, others)[i]),
        forall|k: int|
            0 <= k < others.len() ==> (#[trigger] others[k]).transaction.id() != not_listed(
                txs,
                others,
            )[i].transaction.id(),
    decreases txs.len(),
{
    if txs.len() > 0 {
        let front = txs.drop_last();
        let before = not_listed(front, others);
        let last = txs.last();
        if i < before.len() {
            lemma_not_listed(front, others, i);
            let k = front.index_of(before[i]);
            assert(txs[k] == before[i]);
        } else {
            assert(txs[txs.len() - 1] == last);
            assert(!crate::node::template::lists(others, last.transaction.id()));
        }
    }
}

/// No more transactions are considered than asked for. Those that are not trades come
/// first, and trades follow in the order in which they came in. None of the first is
/// among the trades.
pub proof fn trades_come_last(pool: MemPoolView, number: nat, i: int)
    requires
        0 <= i < candidates_of(pool, number).len(),
    ensures
        candidates_of(pool, number).len() <= number,
        ({
            let trades = trades_listed(pool.txs, rows_of(pool.trades));
            let plain = not_listed(first_of(pool, number), trades);
            &&& i < plain.len() ==> candidates_of(pool, number)[i] == plain[i] && forall|k: int|
                0 <= k < trades.len() ==> (#[trigger] trades[k]).transaction.id()
                    != candidates_of(pool, number)[i].transaction.id()
            &&& i >= plain.len() ==> i - plain.len() < trades.len() && candidates_of(pool, number)[i]
                == trades[i - plain.len()]
        }),
{
    let trades = trades_listed(pool.txs, rows_of(pool.trades));
    let plain = not_listed(first_of(pool, number), trades);
    if i < plain.len() {
        lemma_not_listed(first_of(pool, number), trades, i);
    }
}

/// A trade goes into a block only within its limit, after the trades before it, and
/// moves the shares of its market by what it names. A seller has the shares.
pub proof fn block_trades_keep_to_their_limit(
    markets: MarketsView,
    running: Map<MarketId, Seq<i64>>,
    tx: FilledTransaction,
    quote: TradeQuote,
    after: Map<MarketId, Seq<i64>>,
)
    requires
        slippage_checked(markets, running, tx, quote) == Ok::<
            (bool, Map<MarketId, Seq<i64>>),
            Error,
        >((true, after)),
        tx.transaction.data is Some,
        tx.transaction.data->0 is Trade,
    ensures
        ({
            let trade = tx.transaction.data->0;
            let m = trade->Trade_market_id;
            let o = trade->Trade_outcome_index as int;
            let current = if running.dom().contains(m) {
                running[m]
            } else {
                markets.markets[m].shares
            };
            &&& markets.markets.dom().contains(m)
            &&& trade->Trade_shares > 0 ==> quote is Buy && quote->total_cost_sats
                <= trade->Trade_limit_sats
            &&& trade->Trade_shares <= 0 ==> quote is Sell && (trade->Trade_limit_sats == 0
                || quote->net_proceeds_sats >= trade->Trade_limit_sats)
            &&& trade->Trade_shares <= 0 ==> account_of(
                markets.accounts,
                trade->Trade_trader,
            ).shares(position(m, trade->Trade_outcome_index)) + trade->Trade_shares >= 0
            &&& after.dom().contains(m)
            &&& after[m].len() == current.len()
            &&& o < current.len()
            &&& after[m][o] == current[o] + trade->Trade_shares
            &&& forall|k: int|
                0 <= k < current.len() && k != o ==> (#[trigger] after[m][k]) == current[k]
            &&& forall|other: MarketId|
                other != m ==> (#[trigger] after.dom().contains(other) <==> running.dom().contains(
                    other,
                )) && after[other] == running[other]
        }),
{
}

/// A transaction that is taken goes to the end of the block, and what it leaves for the
/// miner is added to the fees: a fixed fee for a trade, and else what is not paid out.
pub proof fn taken_transactions_pay_the_miner(
    markets: MarketsView,
    before: TemplateView,
    filled: Authorized<FilledTransaction>,
    quote: TradeQuote,
    miner_fee: u64,
    after: TemplateView,
)
    requires
        filled_considered(markets, before, filled, quote, miner_fee) == Ok::<
            (Considered, TemplateView),
            Error,
        >((Considered::Taken, after)),
    ensures
        after.transactions.len() == before.transactions.len() + 1,
        after.transactions.drop_last() == before.transactions,
        after.transactions.last() == filled,
        ({
            let tx = filled.transaction;
            let trade = tx.transaction.data is Some && tx.transaction.data->0 is Trade;
            &&& trade ==> after.fee == before.fee + miner_fee
            &&& !trade ==> after.fee + total_value(tx.transaction.outputs@) == before.fee
                + total_value(tx.spent_utxos@)
        }),
{
    assert(after.transactions.drop_last() =~= before.transactions);
}

/// A transaction that waits changes nothing in the block.
pub proof fn waiting_transactions_change_nothing(
    markets: MarketsView,
    before: TemplateView,
    filled: Authorized<FilledTransaction>,
    quote: TradeQuote,
    miner_fee: u64,
    after: TemplateView,
)
    requires
        filled_considered(markets, before, filled, quote, miner_fee) == Ok::<
            (Considered, TemplateView),
            Error,
        >((Considered::Skipped, after)),
    ensures
        after == before,
        filled.transaction.transaction.data is Some,
        filled.transaction.transaction.data->0 is Trade,
{
}

/// A transaction is thrown out of the pool where it spends a coin that the block has
/// spent, or one that is not there, and only then.
pub proof fn spoiled_transactions_spend_what_is_gone(
    utxos: Map<OutPoint, FilledOutput>,
    spent: Map<OutPoint, ()>,
    inputs: Seq<OutPoint>,
)
    ensures
        is_spoiled(utxos, spent, inputs) <==> exists|i: int|
            0 <= i < inputs.len() && (spent.dom().contains(#[trigger] inputs[i])
                || !utxos.dom().contains(inputs[i])),
{
    lemma_named_or_missing(utxos, inputs);
    if is_spoiled(utxos, spent, inputs) {
        if crate::node::template::spends_any(spent, inputs) {
            let i = choose|i: int|
                0 <= i < inputs.len() && spent.dom().contains(#[trigger] inputs[i]);
            assert(spent.dom().contains(inputs[i]));
        }
    }
}

proof fn lemma_named_or_missing(utxos: Map<OutPoint, FilledOutput>, inputs: Seq<OutPoint>)
    ensures
        outputs_named(utxos, inputs) is Err <==> exists|i: int|
            0 <= i < inputs.len() && !utxos.dom().contains(#[trigger] inputs[i]),
    decreases inputs.len(),
{
    if inputs.len() > 0 {
        let front = inputs.drop_last();
        lemma_named_or_missing(utxos, front);
        assert(inputs[inputs.len() - 1] == inputs.last());
        if outputs_named(utxos, front) is Err {
            let i = choose|i: int|
                0 <= i < front.len() && !utxos.dom().contains(#[trigger] front[i]);
            assert(inputs[i] == front[i]);
        }
        if exists|i: int| 0 <= i < inputs.len() && !utxos.dom().contains(#[trigger] inputs[i]) {
            let i = choose|i: int|
                0 <= i < inputs.len() && !utxos.dom().contains(#[trigger] inputs[i]);
            if i < front.len() {
                assert(front[i] == inputs[i]);
            }
        }
    }
}

/// A trade within its limit goes into a block. A seller has no limit where they name
/// none.
pub proof fn trades_within_their_limit_go_in(
    markets: MarketsView,
    running: Map<MarketId, Seq<i64>>,
    tx: FilledTransaction,
    quote: TradeQuote,
)
    requires
        tx.transaction.data is Some,
        tx.transaction.data->0 is Trade,
        ({
            let trade = tx.transaction.data->0;
            let m = trade->Trade_market_id;
            let o = trade->Trade_outcome_index as int;
            let current = if running.dom().contains(m) {
                running[m]
            } else {
                markets.markets[m].shares
            };
            &&& markets.markets.dom().contains(m)
            &&& o < current.len()
            &&& i64::MIN <= current[o] + trade->Trade_shares <= i64::MAX
            &&& trade->Trade_shares > 0 ==> quote is Buy && quote->total_cost_sats
                <= trade->Trade_limit_sats
            &&& trade->Trade_shares <= 0 ==> quote is Sell && (trade->Trade_limit_sats == 0
                || quote->net_proceeds_sats >= trade->Trade_limit_sats)
            &&& trade->Trade_shares <= 0 ==> account_of(
                markets.accounts,
                trade->Trade_trader,
            ).shares(position(m, trade->Trade_outcome_index)) + trade->Trade_shares >= 0
        }),
    ensures
        slippage_checked(markets, running, tx, quote) is Ok,
        slippage_checked(markets, running, tx, quote)->Ok_0.0,
{
}

proof fn lemma_with_inputs(spent: Map<OutPoint, ()>, inputs: Seq<OutPoint>, o: OutPoint)
    ensures
        with_inputs(spent, inputs).dom().contains(o) <==> spent.dom().contains(o)
            || inputs.contains(o),
    decreases inputs.len(),
{
    if inputs.len() > 0 {
        let front = inputs.drop_last();
        lemma_with_inputs(spent, front, o);
        assert(inputs[inputs.len() - 1] == inputs.last());
        if front.contains(o) {
            assert(inputs[front.index_of(o)] == o);
        }
        if inputs.contains(o) && o != inputs.last() {
            assert(front[inputs.index_of(o)] == o);
        }
    }
}

/// The coins of a transaction that is taken are spent for the rest of the block, and no
/// others.
pub proof fn taken_transactions_spend_their_coins(
    markets: MarketsView,
    before: TemplateView,
    filled: Authorized<FilledTransaction>,
    quote: TradeQuote,
    miner_fee: u64,
    after: TemplateView,
    o: OutPoint,
)
    requires
        filled_considered(markets, before, filled, quote, miner_fee) == Ok::<
            (Considered, TemplateView),
            Error,
        >((Considered::Taken, after)),
    ensures
        after.spent.dom().contains(o) <==> before.spent.dom().contains(o)
            || filled.transaction.transaction.inputs@.contains(o),
{
    lemma_with_inputs(before.spent, filled.transaction.transaction.inputs@, o);
}

/// The first transactions of a pool are transactions of the pool, and as many as asked
/// for where there are as many.
pub proof fn first_transactions_are_in_the_pool(pool: MemPoolView, number: nat, i: int)
    requires
        0 <= i < first_of(pool, number).len(),
    ensures
        first_of(pool, number).len() <= number,
        first_of(pool, number).len() < number ==> first_of(pool, number).len() == rows_of(
            pool.txs,
        ).len(),
        first_of(pool, number)[i] == rows_of(pool.txs)[i].1,
{
}

} // verus!
