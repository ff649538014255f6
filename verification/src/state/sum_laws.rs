//! What holds of what the ledger adds up.

use vstd::prelude::*;

use crate::state::ledger::{deposits_in, spent_deposits_in, withdrawals_in};
use crate::state::reputation::holders;
use crate::types::transaction::output::{
    Content, FilledContent, FilledOutput, GetBitcoinValue, SpentOutput, TxOutput,
};
use crate::types::transaction::{
    bitcoin_taken, plain_bitcoin, total_value, FilledTransaction, OutPoint,
};
use crate::types::{Address, Real};

verus! {

/// A coin is worth what it holds; one that is to leave the sidechain is worth what is
/// paid out and the fee on the mainchain together.
pub proof fn coins_are_worth_what_they_hold(content: FilledContent)
    ensures
        match content {
            FilledContent::Bitcoin(value) => content.bitcoin_value() == value.0,
            FilledContent::MarketFunds { market_id, amount, is_fee } => content.bitcoin_value()
                == amount.0,
            FilledContent::BitcoinWithdrawal(w) => {
                &&& w.value + w.main_fee <= u64::MAX ==> content.bitcoin_value() == w.value
                    + w.main_fee
                &&& w.value + w.main_fee > u64::MAX ==> content.bitcoin_value() == u64::MAX
            },
        },
{
}

/// So is an output.
pub proof fn outputs_are_worth_what_they_hold(content: Content)
    ensures
        match content {
            Content::Bitcoin(value) => content.bitcoin_value() == value.0,
            Content::MarketFunds { market_id, amount, is_fee } => content.bitcoin_value()
                == amount.0,
            Content::Withdrawal(w) => {
                &&& w.value + w.main_fee <= u64::MAX ==> content.bitcoin_value() == w.value
                    + w.main_fee
                &&& w.value + w.main_fee > u64::MAX ==> content.bitcoin_value() == u64::MAX
            },
        },
{
}

/// Of what a coin holds, bitcoin and the funds of a market are an asset, and what is to
/// leave the sidechain is none.
pub proof fn withdrawals_are_no_asset(content: FilledContent)
    ensures
        content.asset_of() is None <==> content is BitcoinWithdrawal,
        content is Bitcoin ==> content.asset_of()->Some_0.1 == content->Bitcoin_0.0,
        content is MarketFunds ==> content.asset_of()->Some_0.1 == content->amount.0,
{
}

/// Each coin counts once in a sum of coins.
pub proof fn coins_add_up(coins: Seq<FilledOutput>, coin: FilledOutput)
    ensures
        total_value(Seq::<FilledOutput>::empty()) == 0,
        total_value(coins.push(coin)) == total_value(coins) + coin.content.bitcoin_value(),
{
    assert(coins.push(coin).drop_last() =~= coins);
}

/// Each output counts once in a sum of outputs.
pub proof fn outputs_add_up(outputs: Seq<TxOutput>, output: TxOutput)
    ensures
        total_value(Seq::<TxOutput>::empty()) == 0,
        total_value(outputs.push(output)) == total_value(outputs) + output.content.bitcoin_value(),
{
    assert(outputs.push(output).drop_last() =~= outputs);
}

/// The fee of a transaction is what it spends and does not pay out. One that pays out
/// more has none.
pub proof fn fees_are_what_is_left(tx: FilledTransaction)
    ensures
        ({
            let spent = total_value(tx.spent_utxos@);
            let out = total_value(tx.transaction.outputs@);
            &&& (tx.fee() is Ok && tx.fee()->Ok_0 is Some) <==> out <= spent <= u64::MAX
            &&& out <= spent <= u64::MAX ==> tx.fee()->Ok_0->Some_0 + out == spent
            &&& spent < out <= u64::MAX ==> tx.fee() is Ok && tx.fee()->Ok_0 is None
            &&& (spent > u64::MAX || out > u64::MAX) <==> tx.fee() is Err
        }),
{
}

/// Of the unspent coins, those that were deposited count as deposits, with their value.
pub proof fn deposits_add_up(
    rows: Seq<(OutPoint, FilledOutput)>,
    outpoint: OutPoint,
    coin: FilledOutput,
)
    ensures
        deposits_in(Seq::<(OutPoint, FilledOutput)>::empty()) == 0,
        outpoint is Deposit ==> deposits_in(rows.push((outpoint, coin))) == deposits_in(rows)
            + coin.content.bitcoin_value(),
        !(outpoint is Deposit) ==> deposits_in(rows.push((outpoint, coin))) == deposits_in(rows),
{
    assert(rows.push((outpoint, coin)).drop_last() =~= rows);
}

/// Of the spent coins, those that were deposited count as deposits, and those that a
/// bundle took out count as withdrawals, each with its value.
pub proof fn spent_deposits_and_withdrawals_add_up(
    rows: Seq<(OutPoint, SpentOutput)>,
    outpoint: OutPoint,
    coin: SpentOutput,
)
    ensures
        spent_deposits_in(Seq::<(OutPoint, SpentOutput)>::empty()) == 0,
        withdrawals_in(Seq::<(OutPoint, SpentOutput)>::empty()) == 0,
        outpoint is Deposit ==> spent_deposits_in(rows.push((outpoint, coin)))
            == spent_deposits_in(rows) + coin.output.content.bitcoin_value(),
        !(outpoint is Deposit) ==> spent_deposits_in(rows.push((outpoint, coin)))
            == spent_deposits_in(rows),
        coin.inpoint is Withdrawal ==> withdrawals_in(rows.push((outpoint, coin)))
            == withdrawals_in(rows) + coin.output.content.bitcoin_value(),
        !(coin.inpoint is Withdrawal) ==> withdrawals_in(rows.push((outpoint, coin)))
            == withdrawals_in(rows),
{
    assert(rows.push((outpoint, coin)).drop_last() =~= rows);
}

/// Who has more reputation than nought counts as a holder.
pub proof fn holders_have_reputation(rows: Seq<(Address, Real)>, address: Address, held: Real)
    ensures
        holders(Seq::<(Address, Real)>::empty()) == 0,
        holders(rows.push((address, held))) == holders(rows) + if !held.is_nan() && held.rank() > 0 {
            1nat
        } else {
            0
        },
{
    assert(rows.push((address, held)).drop_last() =~= rows);
}

/// Of coins, those that hold plain bitcoin count as such; of outputs, those that take
/// plain bitcoin or go to a market do.
pub proof fn plain_bitcoin_adds_up(
    coins: Seq<FilledOutput>,
    coin: FilledOutput,
    outputs: Seq<TxOutput>,
    output: TxOutput,
)
    ensures
        plain_bitcoin(coins.push(coin)) == plain_bitcoin(coins) + match coin.content {
            FilledContent::Bitcoin(value) => value.0 as int,
            _ => 0,
        },
        bitcoin_taken(outputs.push(output)) == bitcoin_taken(outputs) + match output.content {
            Content::Bitcoin(value) => value.0 as int,
            Content::MarketFunds { market_id, amount, is_fee } => amount.0 as int,
            Content::Withdrawal(_) => 0,
        },
{
    assert(coins.push(coin).drop_last() =~= coins);
    assert(outputs.push(output).drop_last() =~= outputs);
}

} // verus!
