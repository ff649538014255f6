//! What holds of the wealth of the chain.

use vstd::prelude::*;

use crate::state::block::coins::{coins_moved, inputs_spent, output_point, outputs_made};
use crate::state::ledger::{deposits_in, spent_deposits_in, withdrawals_in, LedgerView};
use crate::state::two_way_peg_data::{connect_one, PegProgress};
use crate::state::peg::{BlockEvent, Deposit};
use crate::state::Error;
use crate::sums::{has_rows, lemma_sum_remove, lemma_sum_set, sum_of};
use crate::table::rows_of;
use crate::types::transaction::output::{FilledOutput, GetBitcoinValue, SpentOutput};
use crate::types::transaction::{FilledTransaction, InPoint, OutPoint};
use crate::types::{MainBlockHash, Txid};

verus! {

/// What was deposited, whether or not it was spent since.
pub open spec fn deposited(ledger: LedgerView) -> nat {
    deposits_in(rows_of(ledger.utxos)) + spent_deposits_in(rows_of(ledger.stxos))
}

/// What was withdrawn.
pub open spec fn withdrawn(ledger: LedgerView) -> nat {
    withdrawals_in(rows_of(ledger.stxos))
}

/// The coins are in tables, and none is both spent and unspent.
pub open spec fn coins_are_apart(ledger: LedgerView) -> bool {
    &&& has_rows(ledger.utxos)
    &&& has_rows(ledger.stxos)
    &&& forall|o: OutPoint| #[trigger]
        ledger.utxos.dom().contains(o) ==> !ledger.stxos.dom().contains(o)
}

/// What a coin counts for among deposits.
spec fn deposit_value(row: (OutPoint, FilledOutput)) -> int {
    if row.0 is Deposit {
        row.1.bitcoin_value() as int
    } else {
        0
    }
}

spec fn spent_deposit_value(row: (OutPoint, SpentOutput)) -> int {
    if row.0 is Deposit {
        row.1.output.bitcoin_value() as int
    } else {
        0
    }
}

spec fn withdrawal_value(row: (OutPoint, SpentOutput)) -> int {
    if row.1.inpoint is Withdrawal {
        row.1.output.bitcoin_value() as int
    } else {
        0
    }
}

proof fn lemma_deposits(rows: Seq<(OutPoint, FilledOutput)>)
    ensures
        deposits_in(rows) == sum_of(rows, |row: (OutPoint, FilledOutput)| deposit_value(row)),
    decreases rows.len(),
{
    if rows.len() > 0 {
        lemma_deposits(rows.drop_last());
    }
}

proof fn lemma_spent(rows: Seq<(OutPoint, SpentOutput)>)
    ensures
        spent_deposits_in(rows) == sum_of(
            rows,
            |row: (OutPoint, SpentOutput)| spent_deposit_value(row),
        ),
        withdrawals_in(rows) == sum_of(rows, |row: (OutPoint, SpentOutput)| withdrawal_value(row)),
    decreases rows.len(),
{
    if rows.len() > 0 {
        lemma_spent(rows.drop_last());
    }
}

/// Spending a coin moves it from the unspent coins to the spent ones.
proof fn lemma_spend(ledger: LedgerView, o: OutPoint, txid: Txid, vin: u32)
    requires
        coins_are_apart(ledger),
        ledger.utxos.dom().contains(o),
    ensures
        ({
            let spent = SpentOutput {
                output: ledger.utxos[o],
                inpoint: InPoint::Regular { txid, vin },
            };
            let after = ledger.delete(o).note_spent(o, spent);
            &&& coins_are_apart(after)
            &&& deposited(after) == deposited(ledger)
            &&& withdrawn(after) == withdrawn(ledger)
        }),
{
    let spent = SpentOutput {
        output: ledger.utxos[o],
        inpoint: InPoint::Regular { txid, vin },
    };
    let after = ledger.delete(o).note_spent(o, spent);
    let g = |row: (OutPoint, FilledOutput)| deposit_value(row);
    let h = |row: (OutPoint, SpentOutput)| spent_deposit_value(row);
    let w = |row: (OutPoint, SpentOutput)| withdrawal_value(row);
    lemma_sum_remove(ledger.utxos, o, g);
    lemma_sum_set(ledger.stxos, o, spent, h);
    lemma_sum_set(ledger.stxos, o, spent, w);
    lemma_deposits(rows_of(ledger.utxos));
    lemma_deposits(rows_of(after.utxos));
    lemma_spent(rows_of(ledger.stxos));
    lemma_spent(rows_of(after.stxos));
}

proof fn lemma_inputs(ledger: LedgerView, inputs: Seq<OutPoint>, txid: Txid, after: LedgerView)
    requires
        coins_are_apart(ledger),
        inputs_spent(ledger, inputs, txid) == Ok::<LedgerView, Error>(after),
    ensures
        coins_are_apart(after),
        deposited(after) == deposited(ledger),
        withdrawn(after) == withdrawn(ledger),
    decreases inputs.len(),
{
    if inputs.len() > 0 {
        let before = inputs_spent(ledger, inputs.drop_last(), txid)->Ok_0;
        lemma_inputs(ledger, inputs.drop_last(), txid, before);
        lemma_spend(before, inputs.last(), txid, (inputs.len() - 1) as u32);
    }
}

proof fn lemma_outputs(ledger: LedgerView, outputs: Seq<FilledOutput>, txid: Txid)
    requires
        has_rows(ledger.utxos),
    ensures
        has_rows(outputs_made(ledger, outputs, txid).utxos),
        outputs_made(ledger, outputs, txid).stxos == ledger.stxos,
        deposited(outputs_made(ledger, outputs, txid)) == deposited(ledger),
    decreases outputs.len(),
{
    if outputs.len() > 0 {
        lemma_outputs(ledger, outputs.drop_last(), txid);
        let before = outputs_made(ledger, outputs.drop_last(), txid);
        let after = outputs_made(ledger, outputs, txid);
        let g = |row: (OutPoint, FilledOutput)| deposit_value(row);
        let point = output_point(txid, outputs.len() - 1);
        lemma_sum_set(before.utxos, point, outputs.last(), g);
        lemma_deposits(rows_of(before.utxos));
        lemma_deposits(rows_of(after.utxos));
    }
}

/// A transaction changes neither what was deposited nor what was withdrawn:
/// only the mainchain adds to the wealth of the chain, and only withdrawals
/// take from it.
pub proof fn transactions_keep_wealth(
    ledger: LedgerView,
    tx: FilledTransaction,
    after: LedgerView,
)
    requires
        coins_are_apart(ledger),
        coins_moved(ledger, tx) == Ok::<LedgerView, Error>(after),
    ensures
        deposited(after) == deposited(ledger),
        withdrawn(after) == withdrawn(ledger),
{
    let txid = tx.transaction.id();
    let spent = inputs_spent(ledger, tx.transaction.inputs@, txid)->Ok_0;
    lemma_inputs(ledger, tx.transaction.inputs@, txid, spent);
    lemma_outputs(spent, tx.filled()->Some_0, txid);
}

/// A deposit that was not there before adds its value to what was deposited.
pub proof fn deposits_add_their_value(
    at: PegProgress,
    block_height: u32,
    event_block_hash: MainBlockHash,
    deposit: Deposit,
    after: PegProgress,
)
    requires
        coins_are_apart(at.ledger),
        !at.ledger.utxos.dom().contains(OutPoint::Deposit(deposit.outpoint)),
        connect_one(at, block_height, event_block_hash, BlockEvent::Deposit(deposit)) == Ok::<
            PegProgress,
            Error,
        >(after),
    ensures
        deposited(after.ledger) == deposited(at.ledger) + deposit.output.bitcoin_value(),
        withdrawn(after.ledger) == withdrawn(at.ledger),
{
    let g = |row: (OutPoint, FilledOutput)| deposit_value(row);
    lemma_sum_set(at.ledger.utxos, OutPoint::Deposit(deposit.outpoint), deposit.output, g);
    lemma_deposits(rows_of(at.ledger.utxos));
    lemma_deposits(rows_of(after.ledger.utxos));
}

} // verus!
