//! What holds of the transactions that wait for a block.

use vstd::prelude::*;

use crate::authorization::address_bytes;
use crate::mempool::{
    children, claim_conflict, claimed_ids, claims_put, claims_removed, contested_ids, entry_ids,
    indexed, number_of, one_deleted, outputs_to, payload_ids, stxos_put, stxos_removed, tx_put,
    unindexed, Error, MemPoolView,
};
use crate::state::decisions::DecisionId;
use crate::table::rows_of;
use crate::types::transaction::{
    is_relevant, AuthorizedTransaction, ClaimDecisionPayload, DecisionClaimEntry, InPoint,
    OutPoint, Transaction,
};
use crate::types::{Address, Txid};

verus! {

proof fn lemma_inputs_put(
    m: Map<OutPoint, InPoint>,
    inputs: Seq<OutPoint>,
    txid: Txid,
    after: Map<OutPoint, InPoint>,
    o: OutPoint,
)
    requires
        stxos_put(m, inputs, txid) == Some(after),
    ensures
        forall|i: int|
            0 <= i < inputs.len() && (#[trigger] inputs[i]) == o ==> {
                &&& !m.dom().contains(o)
                &&& after.dom().contains(o)
                &&& after[o] == (InPoint::Regular { txid, vin: i as u32 })
            },
        !inputs.contains(o) ==> {
            &&& after.dom().contains(o) <==> m.dom().contains(o)
            &&& after[o] == m[o]
        },
    decreases inputs.len(),
{
    if inputs.len() > 0 {
        let front = inputs.drop_last();
        let before = stxos_put(m, front, txid)->0;
        lemma_inputs_put(m, front, txid, before, o);
        assert(inputs[inputs.len() - 1] == inputs.last());
        if !inputs.contains(o) && front.contains(o) {
            assert(inputs[front.index_of(o)] == o);
        }
        assert forall|i: int| 0 <= i < inputs.len() && (#[trigger] inputs[i]) == o implies {
            &&& !m.dom().contains(o)
            &&& after.dom().contains(o)
            &&& after[o] == (InPoint::Regular { txid, vin: i as u32 })
        } by {
            if i < front.len() {
                assert(front[i] == o);
            } else if front.contains(o) {
                assert(front[front.index_of(o)] == o);
            }
        }
    }
}

/// A transaction that is added is in the pool under its id, and the others stay. Its
/// coins are noted as spent by it, each in its place, and were free before.
pub proof fn added_transactions_spend_their_coins(
    pool: MemPoolView,
    tx: AuthorizedTransaction,
    after: MemPoolView,
    o: OutPoint,
)
    requires
        tx_put(pool, tx) == Ok::<MemPoolView, Error>(after),
    ensures
        after.txs.dom().contains(tx.transaction.id()),
        after.txs[tx.transaction.id()] == tx,
        forall|other: Txid|
            other != tx.transaction.id() ==> (#[trigger] after.txs.dom().contains(other)
                <==> pool.txs.dom().contains(other)) && after.txs[other] == pool.txs[other],
        forall|i: int|
            0 <= i < tx.transaction.inputs@.len() && (#[trigger] tx.transaction.inputs@[i]) == o
                ==> {
                &&& !pool.spent.dom().contains(o)
                &&& after.spent.dom().contains(o)
                &&& after.spent[o] == (InPoint::Regular {
                    txid: tx.transaction.id(),
                    vin: i as u32,
                })
            },
        !tx.transaction.inputs@.contains(o) ==> (after.spent.dom().contains(o)
            <==> pool.spent.dom().contains(o)) && after.spent[o] == pool.spent[o],
{
    lemma_inputs_put(
        pool.spent,
        tx.transaction.inputs@,
        tx.transaction.id(),
        after.spent,
        o,
    );
}

proof fn lemma_claims(m: Map<DecisionId, Txid>, ids: Seq<DecisionId>, txid: Txid, id: DecisionId)
    ensures
        ids.contains(id) ==> claims_put(m, ids, txid).dom().contains(id) && claims_put(
            m,
            ids,
            txid,
        )[id] == txid,
        !ids.contains(id) ==> (claims_put(m, ids, txid).dom().contains(id) <==> m.dom().contains(
            id,
        )) && claims_put(m, ids, txid)[id] == m[id],
        claim_conflict(m, ids, txid) is None <==> forall|i: int|
            0 <= i < ids.len() ==> !(m.dom().contains(#[trigger] ids[i]) && m[ids[i]] != txid),
    decreases ids.len(),
{
    if ids.len() > 0 {
        let front = ids.drop_last();
        lemma_claims(m, front, txid, id);
        assert(ids[ids.len() - 1] == ids.last());
        if front.contains(id) {
            assert(ids[front.index_of(id)] == id);
        }
        if ids.contains(id) && id != ids.last() {
            assert(front[ids.index_of(id)] == id);
        }
        if claim_conflict(m, ids, txid) is None {
            assert forall|i: int| 0 <= i < ids.len() implies !(m.dom().contains(
                #[trigger] ids[i],
            ) && m[ids[i]] != txid) by {
                if i < front.len() {
                    assert(front[i] == ids[i]);
                }
            }
        }
        if forall|i: int|
            0 <= i < ids.len() ==> !(m.dom().contains(#[trigger] ids[i]) && m[ids[i]] != txid) {
            assert forall|i: int| 0 <= i < front.len() implies !(m.dom().contains(
                #[trigger] front[i],
            ) && m[front[i]] != txid) by {
                assert(front[i] == ids[i]);
            }
        }
    }
}

/// A transaction that is added has its claims noted, and none of them was another's.
pub proof fn added_transactions_hold_their_claims(
    pool: MemPoolView,
    tx: AuthorizedTransaction,
    after: MemPoolView,
    id: DecisionId,
)
    requires
        tx_put(pool, tx) == Ok::<MemPoolView, Error>(after),
    ensures
        claimed_ids(tx.transaction).contains(id) ==> {
            &&& after.claims.dom().contains(id)
            &&& after.claims[id] == tx.transaction.id()
            &&& pool.claims.dom().contains(id) ==> pool.claims[id] == tx.transaction.id()
        },
        !claimed_ids(tx.transaction).contains(id) ==> (after.claims.dom().contains(id)
            <==> pool.claims.dom().contains(id)) && after.claims[id] == pool.claims[id],
{
    let ids = claimed_ids(tx.transaction);
    lemma_claims(pool.claims, ids, tx.transaction.id(), id);
    if ids.contains(id) {
        assert(ids[ids.index_of(id)] == id);
    }
}

/// A trade that is added gets the number after that of the last one; other
/// transactions get none.
pub proof fn added_trades_are_numbered(
    pool: MemPoolView,
    tx: AuthorizedTransaction,
    after: MemPoolView,
)
    requires
        tx_put(pool, tx) == Ok::<MemPoolView, Error>(after),
        pool.counter != Some(u64::MAX),
    ensures
        tx.transaction.data is Some && tx.transaction.data->0 is Trade ==> {
            &&& after.counter is Some
            &&& pool.counter is None ==> after.counter->0 == 1
            &&& pool.counter is Some ==> after.counter->0 == pool.counter->0 + 1
            &&& after.trades.dom().contains(after.counter->0)
            &&& after.trades[after.counter->0] == tx.transaction.id()
            &&& forall|n: u64|
                n != after.counter->0 ==> (#[trigger] after.trades.dom().contains(n)
                    <==> pool.trades.dom().contains(n)) && after.trades[n] == pool.trades[n]
        },
        !(tx.transaction.data is Some && tx.transaction.data->0 is Trade) ==> after.trades
            == pool.trades && after.counter == pool.counter,
{
}

/// A pool holds five thousand transactions at most.
pub proof fn pools_have_a_limit(pool: MemPoolView, tx: AuthorizedTransaction)
    ensures
        pool.txs.dom().len() >= 5000 ==> tx_put(pool, tx) is Err,
        tx_put(pool, tx) is Ok ==> pool.txs.dom().len() < 5000,
{
}

proof fn lemma_free_inputs(m: Map<OutPoint, InPoint>, inputs: Seq<OutPoint>, txid: Txid)
    requires
        inputs.no_duplicates(),
        forall|i: int| 0 <= i < inputs.len() ==> !m.dom().contains(#[trigger] inputs[i]),
    ensures
        stxos_put(m, inputs, txid) is Some,
    decreases inputs.len(),
{
    if inputs.len() > 0 {
        let front = inputs.drop_last();
        assert forall|i: int| 0 <= i < front.len() implies !m.dom().contains(
            #[trigger] front[i],
        ) by {
            assert(front[i] == inputs[i]);
        }
        assert forall|i: int, j: int|
            0 <= i < front.len() && 0 <= j < front.len() && i != j implies front[i] != front[j] by {
            assert(inputs[i] != inputs[j]);
        }
        lemma_free_inputs(m, front, txid);
        let before = stxos_put(m, front, txid)->0;
        lemma_inputs_put(m, front, txid, before, inputs.last());
        assert(inputs[inputs.len() - 1] == inputs.last());
        if front.contains(inputs.last()) {
            let i = front.index_of(inputs.last());
            assert(inputs[i] == inputs[inputs.len() - 1]);
        }
    }
}

/// A transaction whose coins are free, each named once, and whose claims are nobody
/// else's is taken, while there is room.
pub proof fn free_transactions_are_taken(pool: MemPoolView, tx: AuthorizedTransaction)
    requires
        pool.txs.dom().len() < 5000,
        tx.transaction.inputs@.no_duplicates(),
        forall|i: int|
            0 <= i < tx.transaction.inputs@.len() ==> !pool.spent.dom().contains(
                #[trigger] tx.transaction.inputs@[i],
            ),
        forall|i: int|
            0 <= i < claimed_ids(tx.transaction).len() ==> !pool.claims.dom().contains(
                #[trigger] claimed_ids(tx.transaction)[i],
            ),
    ensures
        tx_put(pool, tx) is Ok,
{
    let ids = claimed_ids(tx.transaction);
    let txid = tx.transaction.id();
    lemma_free_inputs(pool.spent, tx.transaction.inputs@, txid);
    assert forall|i: int| 0 <= i < ids.len() implies !(pool.claims.dom().contains(
        #[trigger] ids[i],
    ) && pool.claims[ids[i]] != txid) by {}
    lemma_claims(pool.claims, ids, txid, arbitrary());
}

/// What is coming to an address is each output of a waiting transaction that is
/// addressed to it, in its place.
pub proof fn outputs_come_to_their_address(tx: Transaction, addr: Address, n: nat, i: int)
    requires
        0 <= i < n <= tx.outputs@.len(),
    ensures
        tx.outputs@[i].address == addr ==> outputs_to(tx, addr, n).contains(
            (OutPoint::Regular { txid: tx.id(), vout: i as u32 }, tx.outputs@[i]),
        ),
        forall|k: int|
            0 <= k < outputs_to(tx, addr, n).len() ==> (#[trigger] outputs_to(
                tx,
                addr,
                n,
            )[k]).1.address == addr,
    decreases n,
{
    let before = outputs_to(tx, addr, (n - 1) as nat);
    let after = outputs_to(tx, addr, n);
    let found = (OutPoint::Regular { txid: tx.id(), vout: i as u32 }, tx.outputs@[i]);
    if n > 1 {
        outputs_come_to_their_address(tx, addr, (n - 1) as nat, if i < n - 1 {
            i
        } else {
            0
        });
    }
    if tx.outputs@[i].address == addr {
        if i == n - 1 {
            assert(after[after.len() - 1] == found);
        } else {
            assert(after[before.index_of(found)] == found);
        }
    }
    assert forall|k: int| 0 <= k < after.len() implies (#[trigger] after[k]).1.address == addr by {
        if k < before.len() {
            assert(after[k] == before[k]);
        }
    }
}

/// A transaction is listed under each address that it pays, that signs for an input, or
/// that shows a proof, and under no other.
pub proof fn transactions_are_listed_by_address(
    m: Map<Address, Map<Txid, ()>>,
    tx: AuthorizedTransaction,
    txid: Txid,
    a: Address,
)
    ensures
        ({
            let after = indexed(m, tx, txid);
            let paid = exists|i: int|
                0 <= i < tx.transaction.outputs@.len() && a == (
                #[trigger] tx.transaction.outputs@[i]).address;
            let signs = exists|i: int|
                0 <= i < tx.authorizations@.len() && a.0@ == address_bytes(
                    (#[trigger] tx.authorizations@[i]).verifying_key,
                );
            let shows = tx.actor_proof is Some && a.0@ == address_bytes(
                tx.actor_proof->0.verifying_key,
            );
            &&& paid || signs || shows ==> after.dom().contains(a) && after[a].dom().contains(txid)
            &&& !(paid || signs || shows) ==> (after.dom().contains(a) <==> m.dom().contains(a))
                && (m.dom().contains(a) ==> after[a] == m[a])
            &&& forall|other: Txid|
                m.dom().contains(a) && other != txid ==> (
                #[trigger] after[a].dom().contains(other) <==> m[a].dom().contains(other))
        }),
{
    assert(is_relevant(tx, a) <==> indexed(m, tx, txid).dom().contains(a) && is_relevant(tx, a));
}

/// Taken out, it is listed under none of them.
pub proof fn removed_transactions_are_not_listed(
    m: Map<Address, Map<Txid, ()>>,
    tx: AuthorizedTransaction,
    txid: Txid,
    a: Address,
    other: Txid,
)
    ensures
        ({
            let after = unindexed(m, tx, txid);
            &&& is_relevant(tx, a) ==> !(after.dom().contains(a) && after[a].dom().contains(txid))
            &&& other != txid ==> ((after.dom().contains(a) && after[a].dom().contains(other)) <==> (
            m.dom().contains(a) && m[a].dom().contains(other)))
        }),
{
    if other != txid && m.dom().contains(a) && m[a].dom().contains(other) {
        assert(m[a].remove(txid).dom().contains(other));
    }
}

proof fn lemma_inputs_removed(m: Map<OutPoint, InPoint>, inputs: Seq<OutPoint>, o: OutPoint)
    ensures
        stxos_removed(m, inputs).dom().contains(o) <==> m.dom().contains(o) && !inputs.contains(o),
        !inputs.contains(o) ==> stxos_removed(m, inputs)[o] == m[o],
    decreases inputs.len(),
{
    if inputs.len() > 0 {
        let front = inputs.drop_last();
        lemma_inputs_removed(m, front, o);
        assert(inputs[inputs.len() - 1] == inputs.last());
        if front.contains(o) {
            assert(inputs[front.index_of(o)] == o);
        }
        if inputs.contains(o) && o != inputs.last() {
            assert(front[inputs.index_of(o)] == o);
        }
    }
}

proof fn lemma_claims_removed(m: Map<DecisionId, Txid>, ids: Seq<DecisionId>, id: DecisionId)
    ensures
        claims_removed(m, ids).dom().contains(id) <==> m.dom().contains(id) && !ids.contains(id),
        !ids.contains(id) ==> claims_removed(m, ids)[id] == m[id],
    decreases ids.len(),
{
    if ids.len() > 0 {
        let front = ids.drop_last();
        lemma_claims_removed(m, front, id);
        assert(ids[ids.len() - 1] == ids.last());
        if front.contains(id) {
            assert(ids[front.index_of(id)] == id);
        }
        if ids.contains(id) && id != ids.last() {
            assert(front[ids.index_of(id)] == id);
        }
    }
}

/// A transaction that is taken out is no longer in the pool, its coins are free again,
/// and so are its claims. The rest of the pool stays.
pub proof fn removed_transactions_leave_no_trace(
    pool: MemPoolView,
    txid: Txid,
    other: Txid,
    o: OutPoint,
    id: DecisionId,
)
    ensures
        ({
            let tx = pool.txs[txid].transaction;
            let after = one_deleted(pool, txid);
            &&& !after.txs.dom().contains(txid)
            &&& other != txid ==> (after.txs.dom().contains(other) <==> pool.txs.dom().contains(
                other,
            )) && after.txs[other] == pool.txs[other]
            &&& after.spent.dom().contains(o) <==> pool.spent.dom().contains(o)
                && !tx.inputs@.contains(o)
            &&& !tx.inputs@.contains(o) ==> after.spent[o] == pool.spent[o]
            &&& after.claims.dom().contains(id) <==> pool.claims.dom().contains(id)
                && !claimed_ids(tx).contains(id)
            &&& !claimed_ids(tx).contains(id) ==> after.claims[id] == pool.claims[id]
            &&& after.counter == pool.counter
        }),
{
    let tx = pool.txs[txid].transaction;
    lemma_inputs_removed(pool.spent, tx.inputs@, o);
    lemma_claims_removed(pool.claims, claimed_ids(tx), id);
}

/// The transactions that depend on another are those that spend one of its outputs.
pub proof fn dependants_spend_an_output(
    spent: Map<OutPoint, InPoint>,
    txid: Txid,
    n: nat,
    child: Txid,
)
    requires
        n <= u32::MAX,
    ensures
        children(spent, txid, n).contains(child) <==> exists|k: int|
            0 <= k < n && #[trigger] spends_from(spent, txid, k, child),
    decreases n,
{
    if n > 0 {
        let before = children(spent, txid, (n - 1) as nat);
        let after = children(spent, txid, n);
        dependants_spend_an_output(spent, txid, (n - 1) as nat, child);
        if before.contains(child) {
            assert(after[before.index_of(child)] == child);
            let k = choose|k: int| 0 <= k < n - 1 && #[trigger] spends_from(spent, txid, k, child);
            assert(spends_from(spent, txid, k, child));
        }
        if spends_from(spent, txid, n - 1, child) {
            assert(after[after.len() - 1] == child);
        }
        if after.contains(child) && !before.contains(child) {
            let i = after.index_of(child);
            if i < before.len() {
                assert(before[i] == child);
            }
            assert(spends_from(spent, txid, n - 1, child));
        }
        if exists|k: int| 0 <= k < n && #[trigger] spends_from(spent, txid, k, child) {
            let k = choose|k: int| 0 <= k < n && #[trigger] spends_from(spent, txid, k, child);
            if k < n - 1 {
                assert(before.contains(child));
            }
        }
    }
}

/// An output of a transaction is spent by another.
pub open spec fn spends_from(
    spent: Map<OutPoint, InPoint>,
    txid: Txid,
    k: int,
    child: Txid,
) -> bool {
    let o = OutPoint::Regular { txid, vout: k as u32 };
    spent.dom().contains(o) && match spent[o] {
        InPoint::Regular { txid: by, vin } => by == child,
        _ => false,
    }
}

proof fn lemma_number(rows: Seq<(u64, Txid)>, txid: Txid, i: int)
    requires
        0 <= i < rows.len(),
        rows[i].1 == txid,
    ensures
        number_of(rows, txid) is Some,
        (forall|k: int| 0 <= k < rows.len() && k != i ==> (#[trigger] rows[k]).1 != txid)
            ==> number_of(rows, txid) == Some(rows[i].0),
    decreases rows.len(),
{
    let front = rows.drop_last();
    if i < front.len() {
        assert(front[i] == rows[i]);
        lemma_number(front, txid, i);
        assert forall|k: int|
            0 <= k < front.len() && k != i && (forall|k: int|
                0 <= k < rows.len() && k != i ==> (#[trigger] rows[k]).1 != txid) implies (
        #[trigger] front[k]).1 != txid by {
            assert(front[k] == rows[k]);
        }
    } else {
        lemma_no_number(front, txid);
        assert forall|k: int|
            0 <= k < front.len() && (forall|k: int|
                0 <= k < rows.len() && k != i ==> (#[trigger] rows[k]).1 != txid) implies (
        #[trigger] front[k]).1 != txid by {
            assert(front[k] == rows[k]);
        }
    }
}

proof fn lemma_no_number(rows: Seq<(u64, Txid)>, txid: Txid)
    ensures
        (forall|k: int| 0 <= k < rows.len() ==> (#[trigger] rows[k]).1 != txid) ==> number_of(
            rows,
            txid,
        ) is None,
    decreases rows.len(),
{
    if rows.len() > 0 {
        let front = rows.drop_last();
        lemma_no_number(front, txid);
        assert forall|k: int|
            0 <= k < front.len() && (forall|k: int|
                0 <= k < rows.len() ==> (#[trigger] rows[k]).1 != txid) implies (
        #[trigger] front[k]).1 != txid by {
            assert(front[k] == rows[k]);
        }
        assert(rows[rows.len() - 1] == rows.last());
    }
}

/// A trade that is taken out loses its number, and the others keep theirs.
pub proof fn removed_trades_lose_their_number(pool: MemPoolView, txid: Txid, n: u64, i: int)
    requires
        pool.txs[txid].transaction.data is Some,
        pool.txs[txid].transaction.data->0 is Trade,
        0 <= i < rows_of(pool.trades).len(),
        rows_of(pool.trades)[i].1 == txid,
        forall|k: int|
            0 <= k < rows_of(pool.trades).len() && k != i ==> (#[trigger] rows_of(
                pool.trades,
            )[k]).1 != txid,
    ensures
        ({
            let number = rows_of(pool.trades)[i].0;
            let after = one_deleted(pool, txid);
            &&& !after.trades.dom().contains(number)
            &&& n != number ==> (after.trades.dom().contains(n) <==> pool.trades.dom().contains(n))
                && after.trades[n] == pool.trades[n]
        }),
{
    lemma_number(rows_of(pool.trades), txid, i);
}

/// A claim claims each decision that it names, and nothing else.
pub proof fn claims_name_their_decisions(tx: Transaction, id: DecisionId)
    requires
        tx.data is Some,
        tx.data->0 is ClaimDecision,
    ensures
        claimed_ids(tx).contains(id) <==> exists|i: int|
            0 <= i < tx.data->0->ClaimDecision_0.decisions@.len() && DecisionId(
                (#[trigger] tx.data->0->ClaimDecision_0.decisions@[i]).decision_id_bytes,
            ) == id,
{
    let payload = tx.data->0->ClaimDecision_0;
    let one = seq![payload];
    assert(one.drop_last() =~= Seq::<ClaimDecisionPayload>::empty());
    assert(payload_ids(one.drop_last()) =~= Seq::<DecisionId>::empty());
    assert(claimed_ids(tx) =~= entry_ids(payload.decisions@));
    lemma_entry_ids(payload.decisions@, id);
}

proof fn lemma_entry_ids(entries: Seq<DecisionClaimEntry>, id: DecisionId)
    ensures
        entry_ids(entries).contains(id) <==> exists|i: int|
            0 <= i < entries.len() && DecisionId((#[trigger] entries[i]).decision_id_bytes) == id,
{
    let ids = entry_ids(entries);
    if ids.contains(id) {
        let i = ids.index_of(id);
        assert(DecisionId(entries[i].decision_id_bytes) == id);
    }
    if exists|i: int|
        0 <= i < entries.len() && DecisionId((#[trigger] entries[i]).decision_id_bytes) == id {
        let i = choose|i: int|
            0 <= i < entries.len() && DecisionId((#[trigger] entries[i]).decision_id_bytes) == id;
        assert(ids[i] == id);
    }
}

proof fn lemma_payload_ids(payloads: Seq<ClaimDecisionPayload>, id: DecisionId, k: int, i: int)
    requires
        0 <= k < payloads.len(),
        0 <= i < payloads[k].decisions@.len(),
        DecisionId(payloads[k].decisions@[i].decision_id_bytes) == id,
    ensures
        payload_ids(payloads).contains(id),
    decreases payloads.len(),
{
    let front = payloads.drop_last();
    let before = payload_ids(front);
    let last = entry_ids(payloads.last().decisions@);
    let all = payload_ids(payloads);
    if k < front.len() {
        assert(front[k] == payloads[k]);
        lemma_payload_ids(front, id, k, i);
        assert(all[before.index_of(id)] == id);
    } else {
        assert(last[i] == id);
        assert(all[before.len() + i] == id);
    }
}

/// A market claims each decision that is claimed along with it.
pub proof fn markets_name_their_claims(tx: Transaction, id: DecisionId, k: int, i: int)
    requires
        tx.data is Some,
        tx.data->0 is CreateMarket,
        0 <= k < tx.data->0->CreateMarket_new_claims@.len(),
        0 <= i < tx.data->0->CreateMarket_new_claims@[k].decisions@.len(),
        DecisionId(
            tx.data->0->CreateMarket_new_claims@[k].decisions@[i].decision_id_bytes,
        ) == id,
    ensures
        claimed_ids(tx).contains(id),
{
    lemma_payload_ids(tx.data->0->CreateMarket_new_claims@, id, k, i);
}

/// Other transactions claim nothing.
pub proof fn others_claim_nothing(tx: Transaction)
    requires
        tx.data is None || !(tx.data->0 is ClaimDecision || tx.data->0 is CreateMarket),
    ensures
        claimed_ids(tx).len() == 0,
{
}

/// A claim that is confirmed contests what it claims; other transactions contest nothing.
pub proof fn claims_alone_are_contested(tx: Transaction)
    ensures
        tx.data is Some && tx.data->0 is ClaimDecision ==> contested_ids(tx) == claimed_ids(tx),
        !(tx.data is Some && tx.data->0 is ClaimDecision) ==> contested_ids(tx).len() == 0,
{
}

} // verus!
