//! What holds of the coins that transactions and miners move, and of what a block
//! does when it is opened.

use vstd::prelude::*;

use crate::state::block::coins::{coins_moved, inputs_spent, outputs_made};
use crate::state::block::connect::{
    all_put_to_vote, block_opened, coinbase_made, put_to_vote, Opened,
};
use crate::state::decisions::database::{transition_list, DecisionsView};
use crate::state::decisions::types::{DecisionState, HistoryEntry};
use crate::state::decisions::DecisionId;
use crate::state::ledger::LedgerView;
use crate::state::Error;
use crate::types::block::Header;
use crate::types::transaction::output::{Content, FilledContent, FilledOutput, TxOutput};
use crate::types::transaction::{FilledTransaction, InPoint, OutPoint};
use crate::types::{MerkleRoot, Txid};

verus! {

/// A coin is what an output says: it has the same owner, the same memo, and holds
/// the same.
pub open spec fn is_coin_for(coin: FilledOutput, output: TxOutput) -> bool {
    &&& coin.address == output.address
    &&& coin.memo == output.memo
    &&& match output.content {
        Content::Bitcoin(value) => coin.content == FilledContent::Bitcoin(value),
        Content::Withdrawal(w) => coin.content == FilledContent::BitcoinWithdrawal(w),
        Content::MarketFunds { market_id, amount, is_fee } => coin.content == (
        FilledContent::MarketFunds { market_id, amount, is_fee }),
    }
}

proof fn lemma_spent(ledger: LedgerView, inputs: Seq<OutPoint>, txid: Txid, o: OutPoint)
    requires
        inputs_spent(ledger, inputs, txid) is Ok,
    ensures
        ({
            let after = inputs_spent(ledger, inputs, txid)->Ok_0;
            &&& !inputs.contains(o) ==> {
                &&& after.utxos.dom().contains(o) <==> ledger.utxos.dom().contains(o)
                &&& after.utxos[o] == ledger.utxos[o]
                &&& after.stxos.dom().contains(o) <==> ledger.stxos.dom().contains(o)
                &&& after.stxos[o] == ledger.stxos[o]
            }
            &&& forall|i: int|
                0 <= i < inputs.len() && (#[trigger] inputs[i]) == o ==> {
                    &&& ledger.utxos.dom().contains(o)
                    &&& !after.utxos.dom().contains(o)
                    &&& after.stxos.dom().contains(o)
                    &&& after.stxos[o].output == ledger.utxos[o]
                    &&& after.stxos[o].inpoint == (InPoint::Regular { txid, vin: i as u32 })
                }
        }),
    decreases inputs.len(),
{
    if inputs.len() > 0 {
        let front = inputs.drop_last();
        lemma_spent(ledger, front, txid, o);
        let before = inputs_spent(ledger, front, txid)->Ok_0;
        let after = inputs_spent(ledger, inputs, txid)->Ok_0;
        assert(inputs[inputs.len() - 1] == inputs.last());
        if !inputs.contains(o) {
            if front.contains(o) {
                assert(inputs[front.index_of(o)] == o);
            }
        }
        assert forall|i: int| 0 <= i < inputs.len() && (#[trigger] inputs[i]) == o implies {
            &&& ledger.utxos.dom().contains(o)
            &&& !after.utxos.dom().contains(o)
            &&& after.stxos.dom().contains(o)
            &&& after.stxos[o].output == ledger.utxos[o]
            &&& after.stxos[o].inpoint == (InPoint::Regular { txid, vin: i as u32 })
        } by {
            if i < front.len() {
                assert(front[i] == o);
            } else if front.contains(o) {
                let j = front.index_of(o);
                assert(front[j] == o);
                assert(!before.utxos.dom().contains(o));
            }
        }
    }
}

/// The place of an output of a transaction.
pub open spec fn place(txid: Txid, k: int) -> OutPoint {
    OutPoint::Regular { txid, vout: k as u32 }
}

/// The place of an output of a coinbase.
pub open spec fn coinbase_place(merkle_root: MerkleRoot, k: int) -> OutPoint {
    OutPoint::Coinbase { merkle_root, vout: k as u32 }
}

proof fn lemma_made(ledger: LedgerView, outputs: Seq<FilledOutput>, txid: Txid, i: int)
    requires
        0 <= i < outputs.len() <= u32::MAX,
    ensures
        outputs_made(ledger, outputs, txid).utxos.dom().contains(place(txid, i)),
        outputs_made(ledger, outputs, txid).utxos[place(txid, i)] == outputs[i],
    decreases outputs.len(),
{
    if i < outputs.len() - 1 {
        lemma_made(ledger, outputs.drop_last(), txid, i);
        assert((outputs.len() - 1) as u32 != i as u32);
    }
}

proof fn lemma_not_made(ledger: LedgerView, outputs: Seq<FilledOutput>, txid: Txid, o: OutPoint)
    requires
        forall|k: int| 0 <= k < outputs.len() ==> o != #[trigger] place(txid, k),
    ensures
        ({
            let after = outputs_made(ledger, outputs, txid);
            &&& after.stxos == ledger.stxos
            &&& after.utxos.dom().contains(o) <==> ledger.utxos.dom().contains(o)
            &&& after.utxos[o] == ledger.utxos[o]
        }),
    decreases outputs.len(),
{
    if outputs.len() > 0 {
        lemma_not_made(ledger, outputs.drop_last(), txid, o);
        assert(o != place(txid, outputs.len() - 1));
    }
}

/// A transaction spends the coins that it names: they are gone, and noted as spent
/// by it, each in its place.
pub proof fn transactions_spend_their_inputs(
    ledger: LedgerView,
    tx: FilledTransaction,
    after: LedgerView,
    i: int,
)
    requires
        coins_moved(ledger, tx) == Ok::<LedgerView, Error>(after),
        0 <= i < tx.transaction.inputs@.len(),
        forall|k: int|
            0 <= k < tx.transaction.outputs@.len() ==> tx.transaction.inputs@[i]
                != #[trigger] place(tx.transaction.id(), k),
    ensures
        ({
            let o = tx.transaction.inputs@[i];
            &&& ledger.utxos.dom().contains(o)
            &&& !after.utxos.dom().contains(o)
            &&& after.stxos.dom().contains(o)
            &&& after.stxos[o].output == ledger.utxos[o]
            &&& after.stxos[o].inpoint == (InPoint::Regular {
                txid: tx.transaction.id(),
                vin: i as u32,
            })
        }),
{
    let txid = tx.transaction.id();
    let o = tx.transaction.inputs@[i];
    lemma_spent(ledger, tx.transaction.inputs@, txid, o);
    let mid = inputs_spent(ledger, tx.transaction.inputs@, txid)->Ok_0;
    lemma_not_made(mid, tx.filled()->Some_0, txid, o);
}

/// A transaction makes a coin for each of its outputs, and what the output says.
pub proof fn transactions_make_their_outputs(
    ledger: LedgerView,
    tx: FilledTransaction,
    after: LedgerView,
    i: int,
)
    requires
        coins_moved(ledger, tx) == Ok::<LedgerView, Error>(after),
        0 <= i < tx.transaction.outputs@.len() <= u32::MAX,
    ensures
        ({
            let o = OutPoint::Regular { txid: tx.transaction.id(), vout: i as u32 };
            &&& after.utxos.dom().contains(o)
            &&& is_coin_for(after.utxos[o], tx.transaction.outputs@[i])
        }),
{
    let txid = tx.transaction.id();
    let mid = inputs_spent(ledger, tx.transaction.inputs@, txid)->Ok_0;
    let outputs = tx.filled()->Some_0;
    lemma_made(mid, outputs, txid, i);
    assert(outputs[i] == tx.transaction.outputs@[i].filled());
}

/// A transaction touches no coins but those that it spends and makes.
pub proof fn transactions_touch_no_other_coins(
    ledger: LedgerView,
    tx: FilledTransaction,
    after: LedgerView,
    o: OutPoint,
)
    requires
        coins_moved(ledger, tx) == Ok::<LedgerView, Error>(after),
        !tx.transaction.inputs@.contains(o),
        forall|k: int|
            0 <= k < tx.transaction.outputs@.len() ==> o != #[trigger] place(
                tx.transaction.id(),
                k,
            ),
    ensures
        after.utxos.dom().contains(o) <==> ledger.utxos.dom().contains(o),
        after.utxos[o] == ledger.utxos[o],
        after.stxos.dom().contains(o) <==> ledger.stxos.dom().contains(o),
        after.stxos[o] == ledger.stxos[o],
{
    let txid = tx.transaction.id();
    lemma_spent(ledger, tx.transaction.inputs@, txid, o);
    let mid = inputs_spent(ledger, tx.transaction.inputs@, txid)->Ok_0;
    lemma_not_made(mid, tx.filled()->Some_0, txid, o);
}

/// A coin that is not there cannot be spent.
pub proof fn missing_coins_are_not_spent(ledger: LedgerView, tx: FilledTransaction, i: int)
    requires
        0 <= i < tx.transaction.inputs@.len(),
        !ledger.utxos.dom().contains(tx.transaction.inputs@[i]),
    ensures
        coins_moved(ledger, tx) is Err,
{
    let txid = tx.transaction.id();
    if inputs_spent(ledger, tx.transaction.inputs@, txid) is Ok {
        lemma_spent(ledger, tx.transaction.inputs@, txid, tx.transaction.inputs@[i]);
    }
}

/// The miner gets a coin for each output of the coinbase, and what the output says.
pub proof fn miners_get_the_coinbase(
    ledger: LedgerView,
    merkle_root: MerkleRoot,
    coinbase: Seq<TxOutput>,
    i: int,
)
    requires
        0 <= i < coinbase.len() <= u32::MAX,
    ensures
        ({
            let after = coinbase_made(ledger, merkle_root, coinbase);
            let o = OutPoint::Coinbase { merkle_root, vout: i as u32 };
            &&& after.utxos.dom().contains(o)
            &&& is_coin_for(after.utxos[o], coinbase[i])
        }),
    decreases coinbase.len(),
{
    if i < coinbase.len() - 1 {
        miners_get_the_coinbase(ledger, merkle_root, coinbase.drop_last(), i);
        assert((coinbase.len() - 1) as u32 != i as u32);
    }
}

/// Paying the miner touches no other coins.
pub proof fn miners_get_nothing_else(
    ledger: LedgerView,
    merkle_root: MerkleRoot,
    coinbase: Seq<TxOutput>,
    o: OutPoint,
)
    requires
        forall|k: int| 0 <= k < coinbase.len() ==> o != #[trigger] coinbase_place(merkle_root, k),
    ensures
        ({
            let after = coinbase_made(ledger, merkle_root, coinbase);
            &&& after.stxos == ledger.stxos
            &&& after.utxos.dom().contains(o) <==> ledger.utxos.dom().contains(o)
            &&& after.utxos[o] == ledger.utxos[o]
        }),
    decreases coinbase.len(),
{
    if coinbase.len() > 0 {
        miners_get_nothing_else(ledger, merkle_root, coinbase.drop_last(), o);
        assert(o != coinbase_place(merkle_root, coinbase.len() - 1));
    }
}

/// The miner of the first block starts with all reputation; later miners get none
/// for their block. The first block sets the time from which periods are counted.
pub proof fn the_first_miner_has_all_reputation(
    at: Opened,
    header: Header,
    coinbase: Seq<TxOutput>,
    timestamp: u64,
    current_period: u32,
    height: u32,
    after: Opened,
)
    requires
        block_opened(at, header, coinbase, timestamp, current_period, height) == Ok::<
            Opened,
            Error,
        >(after),
    ensures
        height > 0 ==> after.reputation == at.reputation,
        height > 0 ==> after.genesis_timestamp == at.genesis_timestamp,
        height == 0 ==> after.genesis_timestamp == Some(timestamp),
        height == 0 && coinbase.len() > 0 ==> after.reputation.dom().contains(coinbase[0].address)
            && after.reputation[coinbase[0].address].bits == 0x3ff0_0000_0000_0000,
        height == 0 && coinbase.len() == 0 ==> after.reputation == at.reputation,
        after.ledger == coinbase_made(at.ledger, header.merkle_root, coinbase),
        forall|i: int|
            0 <= i < coinbase.len() ==> !((#[trigger] coinbase[i]).content is MarketFunds),
{
    let full = crate::state::voting::system::full();
    assert(full.rank() > 0);
}

/// A decision that was claimed, and whose period is over, is due to be voted on.
pub proof fn decisions_are_due_when_their_period_is_over(
    rows: Seq<(DecisionId, Seq<HistoryEntry>)>,
    current_period: u32,
    id: DecisionId,
)
    ensures
        transition_list(rows, DecisionState::Claimed, 0, current_period).contains(id)
            <==> exists|i: int|
            0 <= i < rows.len() && (#[trigger] rows[i]).0 == id && rows[i].1.len() > 0
                && rows[i].1.last().0 == DecisionState::Claimed && id.period() < current_period,
        transition_list(rows, DecisionState::Voting, 1, current_period).contains(id)
            <==> exists|i: int|
            0 <= i < rows.len() && (#[trigger] rows[i]).0 == id && rows[i].1.len() > 0
                && rows[i].1.last().0 == DecisionState::Voting && id.period() + 1 < current_period,
    decreases rows.len(),
{
    lemma_transitions(rows, DecisionState::Claimed, 0, current_period, id);
    lemma_transitions(rows, DecisionState::Voting, 1, current_period, id);
}

spec fn is_due(
    row: (DecisionId, Seq<HistoryEntry>),
    from: DecisionState,
    lag: u32,
    current_period: u32,
) -> bool {
    row.1.len() > 0 && row.1.last().0 == from && row.0.period() + lag < current_period
}

proof fn lemma_transitions(
    rows: Seq<(DecisionId, Seq<HistoryEntry>)>,
    from: DecisionState,
    lag: u32,
    current_period: u32,
    id: DecisionId,
)
    requires
        from != DecisionState::Created,
    ensures
        transition_list(rows, from, lag, current_period).contains(id) <==> exists|i: int|
            0 <= i < rows.len() && (#[trigger] rows[i]).0 == id && is_due(
                rows[i],
                from,
                lag,
                current_period,
            ),
    decreases rows.len(),
{
    if rows.len() > 0 {
        let front = rows.drop_last();
        lemma_transitions(front, from, lag, current_period, id);
        let before = transition_list(front, from, lag, current_period);
        let after = transition_list(rows, from, lag, current_period);
        let last = rows.last();
        assert(rows[rows.len() - 1] == last);
        if before.contains(id) {
            let i = choose|i: int|
                0 <= i < front.len() && (#[trigger] front[i]).0 == id && is_due(
                    front[i],
                    from,
                    lag,
                    current_period,
                );
            assert(rows[i] == front[i]);
            assert(after[before.index_of(id)] == id);
        }
        if is_due(last, from, lag, current_period) && last.0 == id {
            assert(after == before.push(id));
            assert(after[before.len() as int] == id);
        }
        if after.contains(id) && !before.contains(id) {
            let k = after.index_of(id);
            if k < before.len() {
                assert(before[k] == id);
            }
            assert(last.0 == id);
            assert(is_due(last, from, lag, current_period));
        }
        if exists|i: int|
            0 <= i < rows.len() && (#[trigger] rows[i]).0 == id && is_due(
                rows[i],
                from,
                lag,
                current_period,
            ) {
            let i = choose|i: int|
                0 <= i < rows.len() && (#[trigger] rows[i]).0 == id && is_due(
                    rows[i],
                    from,
                    lag,
                    current_period,
                );
            if i < front.len() {
                assert(front[i] == rows[i]);
            }
        }
    }
}

/// Decisions that are put to the vote are those that are listed, and each of them is
/// open for votes as of the height of the block. To others nothing happens.
pub proof fn listed_decisions_are_put_to_the_vote(
    view: DecisionsView,
    ids: Seq<DecisionId>,
    height: u32,
    after: DecisionsView,
    id: DecisionId,
)
    requires
        all_put_to_vote(view, ids, height) == Ok::<DecisionsView, Error>(after),
    ensures
        after == (DecisionsView { histories: after.histories, ..view }),
        ids.contains(id) ==> {
            &&& after.histories.dom().contains(id)
            &&& after.histories[id].len() > 0
            &&& after.histories[id].last().0 == DecisionState::Voting
            &&& after.histories[id].last().1 == height
            &&& after.histories[id].drop_last() == view.histories[id]
        },
        !ids.contains(id) ==> {
            &&& after.histories.dom().contains(id) <==> view.histories.dom().contains(id)
            &&& after.histories[id] == view.histories[id]
        },
    decreases ids.len(),
{
    if ids.len() > 0 {
        let front = ids.drop_last();
        let before = all_put_to_vote(view, front, height)->Ok_0;
        listed_decisions_are_put_to_the_vote(view, front, height, before, id);
        assert(put_to_vote(before, ids.last(), height) == Ok::<DecisionsView, Error>(after));
        assert(ids[ids.len() - 1] == ids.last());
        if front.contains(id) {
            assert(ids[front.index_of(id)] == id);
        }
        if ids.contains(id) && id != ids.last() {
            assert(front[ids.index_of(id)] == id);
        }
        if id == ids.last() {
            assert(!front.contains(id));
            assert(after.histories[id].drop_last() =~= before.histories[id]);
        }
    }
}

} // verus!
