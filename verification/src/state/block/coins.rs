//! The coins that a transaction spends and makes.

use vstd::prelude::*;

use crate::state::error::FillTxOutputContents;
use crate::state::ledger::{
    delete_keeps_index, delete_undoes_insert, insert_keeps_index, insert_undoes_delete,
    Ledger, LedgerView, UtxoManager,
};
use crate::state::Error;
use crate::types::encoding::Encode;
use crate::types::transaction::output::{FilledOutput, SpentOutput};
use crate::types::transaction::{FilledTransaction, InPoint, OutPoint, Transaction};
use crate::types::{Duplicate, Txid};

verus! {

/// The place of an output of a transaction.
pub open spec fn output_point(txid: Txid, vout: int) -> OutPoint {
    OutPoint::Regular { txid, vout: vout as u32 }
}

/// The ledger after inputs are spent.
pub open spec fn inputs_spent(ledger: LedgerView, inputs: Seq<OutPoint>, txid: Txid) -> Result<
    LedgerView,
    Error,
>
    decreases inputs.len(),
{
    if inputs.len() == 0 {
        Ok(ledger)
    } else {
        match inputs_spent(ledger, inputs.drop_last(), txid) {
            Err(e) => Err(e),
            Ok(before) => {
                let input = inputs.last();
                if !before.utxos.dom().contains(input) {
                    Err(Error::NoUtxo { outpoint: input })
                } else {
                    Ok(
                        before.delete(input).note_spent(
                            input,
                            SpentOutput {
                                output: before.utxos[input],
                                inpoint: InPoint::Regular {
                                    txid,
                                    vin: (inputs.len() - 1) as u32,
                                },
                            },
                        ),
                    )
                }
            },
        }
    }
}

/// The ledger after outputs are made.
pub open spec fn outputs_made(ledger: LedgerView, outputs: Seq<FilledOutput>, txid: Txid)
    -> LedgerView
    decreases outputs.len(),
{
    if outputs.len() == 0 {
        ledger
    } else {
        outputs_made(ledger, outputs.drop_last(), txid).insert(
            output_point(txid, outputs.len() - 1),
            outputs.last(),
        )
    }
}

/// The ledger after a transaction.
pub open spec fn coins_moved(ledger: LedgerView, tx: FilledTransaction) -> Result<
    LedgerView,
    Error,
> {
    let txid = tx.transaction.id();
    match inputs_spent(ledger, tx.transaction.inputs@, txid) {
        Err(e) => Err(e),
        Ok(spent) => match tx.filled() {
            None => Err(Error::FillTxOutputContents(FillTxOutputContents(Box::new(tx)))),
            Some(outputs) => Ok(outputs_made(spent, outputs, txid)),
        },
    }
}

proof fn lemma_inputs_prefix(ledger: LedgerView, inputs: Seq<OutPoint>, txid: Txid, n: int)
    requires
        0 <= n <= inputs.len(),
        inputs_spent(ledger, inputs.subrange(0, n), txid) is Err,
    ensures
        inputs_spent(ledger, inputs, txid) == inputs_spent(ledger, inputs.subrange(0, n), txid),
    decreases inputs.len() - n,
{
    if n == inputs.len() {
        assert(inputs.subrange(0, n) =~= inputs);
    } else {
        assert(inputs.subrange(0, n + 1).drop_last() =~= inputs.subrange(0, n));
        lemma_inputs_prefix(ledger, inputs, txid, n + 1);
    }
}

/// Spends the inputs of a transaction and makes its outputs.
pub fn apply_utxo_changes(ledger: &mut Ledger, filled_tx: &FilledTransaction) -> (r: Result<
    (),
    Error,
>)
    requires
        filled_tx.transaction.encodable(),
        filled_tx.spends_fit(),
    ensures
        match r {
            Ok(()) => coins_moved(old(ledger)@, *filled_tx) == Ok::<LedgerView, Error>(
                final(ledger)@,
            ),
            Err(e) => coins_moved(old(ledger)@, *filled_tx) == Err::<LedgerView, Error>(e),
        },
{
    let txid = filled_tx.txid();
    let inputs = filled_tx.inputs();
    let ghost start = ledger@;
    let mut i: usize = 0;
    assert(inputs@.subrange(0, 0) =~= Seq::empty());
    assert(filled_tx.transaction.inputs.encodable());
    while i < inputs.len()
        invariant
            i <= inputs@.len() <= u32::MAX,
            start == old(ledger)@,
            inputs@ == filled_tx.transaction.inputs@,
            txid == filled_tx.transaction.id(),
            inputs_spent(start, inputs@.subrange(0, i as int), txid) == Ok::<LedgerView, Error>(
                ledger@,
            ),
        decreases inputs@.len() - i,
    {
        let input = inputs[i];
        proof {
            assert(inputs@.subrange(0, i + 1).drop_last() =~= inputs@.subrange(0, i as int));
        }
        let output = match ledger.utxos.get(&input) {
            None => {
                proof {
                    lemma_inputs_prefix(start, inputs@, txid, i + 1);
                }
                return Err(Error::NoUtxo { outpoint: input });
            },
            Some(output) => output.duplicate(),
        };
        let _ = ledger.delete_utxo(&input);
        ledger.stxos.put(
            input,
            SpentOutput { output, inpoint: InPoint::Regular { txid, vin: i as u32 } },
        );
        i += 1;
    }
    assert(inputs@.subrange(0, i as int) =~= inputs@);
    let outputs = match filled_tx.filled_outputs() {
        None => return Err(
            Error::FillTxOutputContents(FillTxOutputContents(Box::new(filled_tx.duplicate()))),
        ),
        Some(outputs) => outputs,
    };
    assert(filled_tx.transaction.outputs.encodable());
    let ghost spent = ledger@;
    let mut k: usize = 0;
    assert(outputs@.subrange(0, 0) =~= Seq::empty());
    while k < outputs.len()
        invariant
            k <= outputs@.len() <= u32::MAX,
            ledger@ == outputs_made(spent, outputs@.subrange(0, k as int), txid),
        decreases outputs@.len() - k,
    {
        assert(outputs@.subrange(0, k + 1).drop_last() =~= outputs@.subrange(0, k as int));
        ledger.insert_utxo(&(OutPoint::Regular { txid, vout: k as u32 }), &outputs[k]);
        k += 1;
    }
    assert(outputs@.subrange(0, k as int) =~= outputs@);
    Ok(())
}

/// The ledger without the first `n` outputs of a transaction, the last one
/// first.
pub open spec fn outputs_unmade(ledger: LedgerView, txid: Txid, n: nat) -> Result<LedgerView, Error>
    decreases n,
{
    if n == 0 {
        Ok(ledger)
    } else {
        let point = output_point(txid, n - 1);
        if !ledger.utxos.dom().contains(point) {
            Err(Error::NoUtxo { outpoint: point })
        } else {
            outputs_unmade(ledger.delete(point), txid, (n - 1) as nat)
        }
    }
}

/// The ledger with inputs unspent again, the last one first.
pub open spec fn inputs_unspent(ledger: LedgerView, inputs: Seq<OutPoint>) -> Result<
    LedgerView,
    Error,
>
    decreases inputs.len(),
{
    if inputs.len() == 0 {
        Ok(ledger)
    } else {
        let input = inputs.last();
        if !ledger.stxos.dom().contains(input) {
            Err(Error::NoStxo { outpoint: input })
        } else {
            inputs_unspent(
                ledger.forget_spent(input).insert(input, ledger.stxos[input].output),
                inputs.drop_last(),
            )
        }
    }
}

/// The ledger before a transaction.
pub open spec fn coins_moved_back(ledger: LedgerView, tx: Transaction) -> Result<
    LedgerView,
    Error,
> {
    match outputs_unmade(ledger, tx.id(), tx.outputs@.len()) {
        Err(e) => Err(e),
        Ok(unmade) => inputs_unspent(unmade, tx.inputs@),
    }
}

/// Removes the outputs of a transaction and gives its inputs back.
pub fn revert_utxo_changes(ledger: &mut Ledger, tx: &Transaction) -> (r: Result<(), Error>)
    requires
        tx.encodable(),
    ensures
        match r {
            Ok(()) => coins_moved_back(old(ledger)@, *tx) == Ok::<LedgerView, Error>(
                final(ledger)@,
            ),
            Err(e) => coins_moved_back(old(ledger)@, *tx) == Err::<LedgerView, Error>(e),
        },
{
    let txid = tx.txid();
    assert(tx.outputs.encodable());
    let mut k: usize = tx.outputs.len();
    while k > 0
        invariant
            k <= tx.outputs@.len() <= u32::MAX,
            txid == tx.id(),
            outputs_unmade(ledger@, txid, k as nat) == outputs_unmade(
                old(ledger)@,
                txid,
                tx.outputs@.len(),
            ),
        decreases k,
    {
        k -= 1;
        let outpoint = OutPoint::Regular { txid, vout: k as u32 };
        if !ledger.delete_utxo(&outpoint) {
            return Err(Error::NoUtxo { outpoint });
        }
    }
    let ghost unmade = ledger@;
    let inputs = &tx.inputs;
    let mut i: usize = inputs.len();
    assert(inputs@.subrange(0, i as int) =~= inputs@);
    while i > 0
        invariant
            i <= inputs@.len(),
            inputs@ == tx.inputs@,
            coins_moved_back(old(ledger)@, *tx) == inputs_unspent(unmade, inputs@),
            inputs_unspent(ledger@, inputs@.subrange(0, i as int)) == inputs_unspent(
                unmade,
                inputs@,
            ),
        decreases i,
    {
        i -= 1;
        let input = inputs[i];
        assert(inputs@.subrange(0, i + 1).drop_last() =~= inputs@.subrange(0, i as int));
        match ledger.stxos.take(&input) {
            None => return Err(Error::NoStxo { outpoint: input }),
            Some(spent) => {
                ledger.insert_utxo(&input, &spent.output);
            },
        }
    }
    assert(inputs@.subrange(0, 0) =~= Seq::empty());
    Ok(())
}

/// None of the first `n` outputs of a transaction is there.
pub open spec fn outputs_free(ledger: LedgerView, txid: Txid, n: int) -> bool {
    forall|i: int|
        0 <= i < n ==> !ledger.utxos.dom().contains(#[trigger] output_point(txid, i))
}

/// Removing outputs undoes making them.
proof fn lemma_outputs_unmade(ledger: LedgerView, outputs: Seq<FilledOutput>, txid: Txid)
    requires
        ledger.index_in_step(),
        outputs.len() <= u32::MAX,
        outputs_free(ledger, txid, outputs.len() as int),
    ensures
        outputs_made(ledger, outputs, txid).index_in_step(),
        outputs_unmade(outputs_made(ledger, outputs, txid), txid, outputs.len()) == Ok::<
            LedgerView,
            Error,
        >(ledger),
        forall|o: OutPoint| #[trigger]
            outputs_made(ledger, outputs, txid).utxos.dom().contains(o)
                ==> ledger.utxos.dom().contains(o) || exists|i: int|
                0 <= i < outputs.len() && o == #[trigger] output_point(txid, i),
    decreases outputs.len(),
{
    if outputs.len() > 0 {
        let front = outputs.drop_last();
        lemma_outputs_unmade(ledger, front, txid);
        let before = outputs_made(ledger, front, txid);
        let point = output_point(txid, outputs.len() - 1);
        if before.utxos.dom().contains(point) {
            assert(!ledger.utxos.dom().contains(point));
            let i = choose|i: int| 0 <= i < front.len() && point == #[trigger] output_point(txid, i);
            assert(i as u32 == (outputs.len() - 1) as u32);
        }
        insert_keeps_index(before, point, outputs.last());
        delete_undoes_insert(before, point, outputs.last());
        let after = outputs_made(ledger, outputs, txid);
        assert forall|o: OutPoint| #[trigger] after.utxos.dom().contains(o) implies ledger
            .utxos.dom().contains(o) || exists|i: int|
            0 <= i < outputs.len() && o == #[trigger] output_point(txid, i) by {
            if o != point && !ledger.utxos.dom().contains(o) {
                let i = choose|i: int|
                    0 <= i < front.len() && o == #[trigger] output_point(txid, i);
                assert(0 <= i < outputs.len() && o == output_point(txid, i));
            }
        }
    }
}

/// Giving inputs back undoes spending them.
proof fn lemma_inputs_unspent(ledger: LedgerView, inputs: Seq<OutPoint>, txid: Txid)
    requires
        ledger.index_in_step(),
        inputs_spent(ledger, inputs, txid) is Ok,
        forall|i: int| 0 <= i < inputs.len() ==> !ledger.stxos.dom().contains(#[trigger] inputs[i]),
    ensures
        inputs_spent(ledger, inputs, txid)->Ok_0.index_in_step(),
        forall|o: OutPoint| #[trigger]
            inputs_spent(ledger, inputs, txid)->Ok_0.utxos.dom().contains(o)
                ==> ledger.utxos.dom().contains(o),
        forall|o: OutPoint| #[trigger]
            inputs_spent(ledger, inputs, txid)->Ok_0.stxos.dom().contains(o)
                ==> ledger.stxos.dom().contains(o) || !inputs_spent(
                ledger,
                inputs,
                txid,
            )->Ok_0.utxos.dom().contains(o),
        inputs_unspent(inputs_spent(ledger, inputs, txid)->Ok_0, inputs) == Ok::<LedgerView, Error>(
            ledger,
        ),
    decreases inputs.len(),
{
    if inputs.len() > 0 {
        let front = inputs.drop_last();
        assert forall|i: int| 0 <= i < front.len() implies !ledger.stxos.dom().contains(
            #[trigger] front[i],
        ) by {
            assert(inputs[i] == front[i]);
        }
        lemma_inputs_unspent(ledger, front, txid);
        let before = inputs_spent(ledger, front, txid)->Ok_0;
        let after = inputs_spent(ledger, inputs, txid)->Ok_0;
        let input = inputs.last();
        assert(!ledger.stxos.dom().contains(inputs[inputs.len() - 1]));
        delete_keeps_index(before, input);
        insert_undoes_delete(before, input);
        let back = after.forget_spent(input).insert(input, after.stxos[input].output);
        assert(!before.stxos.dom().contains(input));
        assert(after.forget_spent(input).stxos =~= before.stxos);
        assert(back == before.delete(input).insert(input, before.utxos[input]));
    }
}

/// Disconnecting a transaction gives back the ledger, when its outputs were
/// new and nothing it spends was noted as spent.
pub proof fn moving_back_undoes_moving(ledger: LedgerView, tx: FilledTransaction)
    requires
        ledger.index_in_step(),
        tx.transaction.outputs@.len() <= u32::MAX,
        coins_moved(ledger, tx) is Ok,
        outputs_free(ledger, tx.transaction.id(), tx.transaction.outputs@.len() as int),
        forall|i: int|
            0 <= i < tx.transaction.inputs@.len() ==> !ledger.stxos.dom().contains(
                #[trigger] tx.transaction.inputs@[i],
            ),
    ensures
        coins_moved(ledger, tx)->Ok_0.index_in_step(),
        coins_moved_back(coins_moved(ledger, tx)->Ok_0, tx.transaction) == Ok::<LedgerView, Error>(
            ledger,
        ),
{
    let txid = tx.transaction.id();
    let inputs = tx.transaction.inputs@;
    let spent = inputs_spent(ledger, inputs, txid)->Ok_0;
    let outputs = tx.filled()->Some_0;
    lemma_inputs_unspent(ledger, inputs, txid);
    assert forall|i: int| 0 <= i < outputs.len() implies !spent.utxos.dom().contains(
        #[trigger] output_point(txid, i),
    ) by {
        assert(!ledger.utxos.dom().contains(output_point(txid, i)));
    }
    lemma_outputs_unmade(spent, outputs, txid);
}

} // verus!
