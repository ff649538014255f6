//! What holds of the transactions that wait for a block.

use vstd::prelude::*;

use crate::bytes::{be64_order, bytes_before};
use crate::mempool::{
    children, claim_conflict, claimed_ids, claims_put, claims_removed, deleted, evicted,
    is_trade, last_number, one_deleted, stxos_put, stxos_removed, trade_removed, tx_put, txids_at,
    Error, MemPoolView,
};
use crate::state::decisions::types::DecisionId;
use crate::sums::has_rows;
use crate::table::{is_rows_of, lemma_row, rows_of, Key};
use crate::types::transaction::{is_relevant, AuthorizedTransaction, InPoint, OutPoint};
use crate::types::{Address, Txid};

verus! {

/// Each decision that a transaction of the pool claims is noted as claimed by
/// it. So no two transactions of the pool claim one decision.
pub open spec fn claims_in_step(pool: MemPoolView) -> bool {
    forall|txid: Txid, i: int|
        pool.txs.dom().contains(txid) && 0 <= i < claimed_ids(pool.txs[txid].transaction).len()
            ==> {
            let id = #[trigger] claimed_ids(pool.txs[txid].transaction)[i];
            pool.claims.dom().contains(id) && pool.claims[id] == txid
        }
}

/// Each input of a transaction of the pool is noted as spent by it. So no two
/// transactions of the pool spend one coin.
pub open spec fn spends_in_step(pool: MemPoolView) -> bool {
    forall|txid: Txid, i: int|
        pool.txs.dom().contains(txid) && 0 <= i < pool.txs[txid].transaction.inputs@.len() ==> {
            let o = #[trigger] pool.txs[txid].transaction.inputs@[i];
            &&& pool.spent.dom().contains(o)
            &&& pool.spent[o] == InPoint::Regular { txid, vin: i as u32 }
        }
}

proof fn lemma_claims_put(m: Map<DecisionId, Txid>, ids: Seq<DecisionId>, txid: Txid)
    ensures
        forall|id: DecisionId| #[trigger]
            claims_put(m, ids, txid).dom().contains(id) <==> m.dom().contains(id) || ids.contains(
                id,
            ),
        forall|id: DecisionId| #[trigger]
            claims_put(m, ids, txid).dom().contains(id) ==> claims_put(m, ids, txid)[id]
                == if ids.contains(id) {
                txid
            } else {
                m[id]
            },
    decreases ids.len(),
{
    if ids.len() > 0 {
        let front = ids.drop_last();
        lemma_claims_put(m, front, txid);
        let before = claims_put(m, front, txid);
        let after = claims_put(m, ids, txid);
        assert(after == before.insert(ids.last(), txid));
        assert(ids[ids.len() - 1] == ids.last());
        assert forall|id: DecisionId| #[trigger] ids.contains(id) <==> front.contains(id) || id
            == ids.last() by {
            if front.contains(id) {
                assert(ids[front.index_of(id)] == id);
            }
            if ids.contains(id) && id != ids.last() {
                assert(front[ids.index_of(id)] == id);
            }
        }
    }
}

proof fn lemma_claims_removed(m: Map<DecisionId, Txid>, ids: Seq<DecisionId>)
    ensures
        forall|id: DecisionId| #[trigger]
            claims_removed(m, ids).dom().contains(id) <==> m.dom().contains(id) && !ids.contains(
                id,
            ),
        forall|id: DecisionId| #[trigger]
            claims_removed(m, ids).dom().contains(id) ==> claims_removed(m, ids)[id] == m[id],
    decreases ids.len(),
{
    if ids.len() > 0 {
        let front = ids.drop_last();
        lemma_claims_removed(m, front);
        let before = claims_removed(m, front);
        let after = claims_removed(m, ids);
        assert(after == before.remove(ids.last()));
        assert(ids[ids.len() - 1] == ids.last());
        assert forall|id: DecisionId| #[trigger] ids.contains(id) <==> front.contains(id) || id
            == ids.last() by {
            if front.contains(id) {
                assert(ids[front.index_of(id)] == id);
            }
            if ids.contains(id) && id != ids.last() {
                assert(front[ids.index_of(id)] == id);
            }
        }
    }
}

proof fn lemma_no_conflict(m: Map<DecisionId, Txid>, ids: Seq<DecisionId>, txid: Txid)
    requires
        claim_conflict(m, ids, txid) is None,
    ensures
        forall|id: DecisionId| #[trigger]
            ids.contains(id) && m.dom().contains(id) ==> m[id] == txid,
    decreases ids.len(),
{
    if ids.len() > 0 {
        let front = ids.drop_last();
        lemma_no_conflict(m, front, txid);
        assert forall|id: DecisionId| #[trigger]
            ids.contains(id) && m.dom().contains(id) implies m[id] == txid by {
            if id != ids.last() {
                assert(front[ids.index_of(id)] == id);
                assert(front.contains(id));
            }
        }
    }
}

proof fn lemma_stxos_put(m: Map<OutPoint, InPoint>, inputs: Seq<OutPoint>, txid: Txid)
    requires
        stxos_put(m, inputs, txid) is Some,
    ensures
        inputs.no_duplicates(),
        forall|i: int| 0 <= i < inputs.len() ==> !m.dom().contains(#[trigger] inputs[i]),
        forall|o: OutPoint| #[trigger]
            stxos_put(m, inputs, txid)->Some_0.dom().contains(o) <==> m.dom().contains(o)
                || inputs.contains(o),
        forall|o: OutPoint|
            m.dom().contains(o) ==> #[trigger] stxos_put(m, inputs, txid)->Some_0[o] == m[o],
        forall|i: int|
            0 <= i < inputs.len() ==> stxos_put(m, inputs, txid)->Some_0[#[trigger] inputs[i]]
                == (InPoint::Regular { txid, vin: i as u32 }),
    decreases inputs.len(),
{
    if inputs.len() > 0 {
        let front = inputs.drop_last();
        lemma_stxos_put(m, front, txid);
        let before = stxos_put(m, front, txid)->Some_0;
        let last = inputs.last();
        assert(!front.contains(last));
        assert(inputs[inputs.len() - 1] == last);
        assert forall|o: OutPoint| #[trigger] inputs.contains(o) <==> front.contains(o) || o == last by {
            if front.contains(o) {
                assert(inputs[front.index_of(o)] == o);
            }
            if inputs.contains(o) && o != last {
                assert(front[inputs.index_of(o)] == o);
            }
        }
        assert forall|i: int, j: int|
            0 <= i < inputs.len() && 0 <= j < inputs.len() && i != j implies inputs[i]
            != inputs[j] by {
            if i == inputs.len() - 1 {
                assert(front.contains(front[j]));
            } else if j == inputs.len() - 1 {
                assert(front.contains(front[i]));
            } else {
                assert(front[i] != front[j]);
            }
        }
        assert forall|i: int| 0 <= i < inputs.len() implies !m.dom().contains(
            #[trigger] inputs[i],
        ) by {
            if i < front.len() {
                assert(front[i] == inputs[i]);
            }
        }
        assert forall|i: int| 0 <= i < inputs.len() implies stxos_put(m, inputs, txid)->Some_0[
        #[trigger] inputs[i]] == (InPoint::Regular { txid, vin: i as u32 }) by {
            if i < front.len() {
                assert(front[i] == inputs[i]);
                assert(front.contains(front[i]));
            }
        }
    }
}

proof fn lemma_stxos_removed(m: Map<OutPoint, InPoint>, inputs: Seq<OutPoint>)
    ensures
        forall|o: OutPoint| #[trigger]
            stxos_removed(m, inputs).dom().contains(o) <==> m.dom().contains(o)
                && !inputs.contains(o),
        forall|o: OutPoint| #[trigger]
            stxos_removed(m, inputs).dom().contains(o) ==> stxos_removed(m, inputs)[o] == m[o],
    decreases inputs.len(),
{
    if inputs.len() > 0 {
        let front = inputs.drop_last();
        lemma_stxos_removed(m, front);
        let before = stxos_removed(m, front);
        let after = stxos_removed(m, inputs);
        assert(after == before.remove(inputs.last()));
        assert(inputs[inputs.len() - 1] == inputs.last());
        assert forall|o: OutPoint| #[trigger] inputs.contains(o) <==> front.contains(o) || o
            == inputs.last() by {
            if front.contains(o) {
                assert(inputs[front.index_of(o)] == o);
            }
            if inputs.contains(o) && o != inputs.last() {
                assert(front[inputs.index_of(o)] == o);
            }
        }
    }
}

/// Adding a transaction keeps the claims and the spent coins in step.
pub proof fn putting_keeps_step(pool: MemPoolView, tx: AuthorizedTransaction)
    requires
        claims_in_step(pool),
        spends_in_step(pool),
        tx_put(pool, tx) is Ok,
    ensures
        claims_in_step(tx_put(pool, tx)->Ok_0),
        spends_in_step(tx_put(pool, tx)->Ok_0),
{
    lemma_putting_keeps_claims(pool, tx);
    lemma_putting_keeps_spends(pool, tx);
}

proof fn lemma_putting_keeps_claims(pool: MemPoolView, tx: AuthorizedTransaction)
    requires
        claims_in_step(pool),
        tx_put(pool, tx) is Ok,
    ensures
        claims_in_step(tx_put(pool, tx)->Ok_0),
{
    let new = tx.transaction.id();
    let after = tx_put(pool, tx)->Ok_0;
    let ids = claimed_ids(tx.transaction);
    lemma_claims_put(pool.claims, ids, new);
    lemma_no_conflict(pool.claims, ids, new);
    assert(after.claims == claims_put(pool.claims, ids, new));
    assert(after.txs == pool.txs.insert(new, tx));
    assert forall|txid: Txid, i: int|
        after.txs.dom().contains(txid) && 0 <= i < claimed_ids(
            after.txs[txid].transaction,
        ).len() implies ({
        let id = #[trigger] claimed_ids(after.txs[txid].transaction)[i];
        after.claims.dom().contains(id) && after.claims[id] == txid
    }) by {
        let id = claimed_ids(after.txs[txid].transaction)[i];
        if txid == new {
            assert(ids.contains(ids[i]));
        } else {
            assert(claimed_ids(pool.txs[txid].transaction)[i] == id);
            assert(pool.claims.dom().contains(id) && pool.claims[id] == txid);
            assert(!ids.contains(id));
        }
    }
}

proof fn lemma_putting_keeps_spends(pool: MemPoolView, tx: AuthorizedTransaction)
    requires
        spends_in_step(pool),
        tx_put(pool, tx) is Ok,
    ensures
        spends_in_step(tx_put(pool, tx)->Ok_0),
{
    let new = tx.transaction.id();
    let after = tx_put(pool, tx)->Ok_0;
    let inputs = tx.transaction.inputs@;
    lemma_stxos_put(pool.spent, inputs, new);
    assert(after.spent == stxos_put(pool.spent, inputs, new)->Some_0);
    assert(after.txs == pool.txs.insert(new, tx));
    assert forall|txid: Txid, i: int|
        after.txs.dom().contains(txid) && 0 <= i
            < after.txs[txid].transaction.inputs@.len() implies ({
        let o = #[trigger] after.txs[txid].transaction.inputs@[i];
        &&& after.spent.dom().contains(o)
        &&& after.spent[o] == InPoint::Regular { txid, vin: i as u32 }
    }) by {
        let o = after.txs[txid].transaction.inputs@[i];
        if txid == new {
            assert(inputs.contains(inputs[i]));
        } else {
            assert(pool.txs[txid].transaction.inputs@[i] == o);
            assert(pool.spent.dom().contains(o));
        }
    }
}

/// Removing one transaction keeps the claims and the spent coins in step.
proof fn lemma_one_keeps_step(pool: MemPoolView, gone: Txid)
    requires
        claims_in_step(pool),
        spends_in_step(pool),
        pool.txs.dom().contains(gone),
    ensures
        claims_in_step(one_deleted(pool, gone)),
        spends_in_step(one_deleted(pool, gone)),
{
    let after = one_deleted(pool, gone);
    let tx = pool.txs[gone].transaction;
    let ids = claimed_ids(tx);
    let inputs = tx.inputs@;
    lemma_claims_removed(pool.claims, ids);
    lemma_stxos_removed(pool.spent, inputs);
    assert forall|txid: Txid, i: int|
        after.txs.dom().contains(txid) && 0 <= i < claimed_ids(
            after.txs[txid].transaction,
        ).len() implies ({
        let id = #[trigger] claimed_ids(after.txs[txid].transaction)[i];
        after.claims.dom().contains(id) && after.claims[id] == txid
    }) by {
        let id = claimed_ids(after.txs[txid].transaction)[i];
        assert(claimed_ids(pool.txs[txid].transaction)[i] == id);
        if ids.contains(id) {
            let j = ids.index_of(id);
            assert(claimed_ids(pool.txs[gone].transaction)[j] == id);
        }
    }
    assert forall|txid: Txid, i: int|
        after.txs.dom().contains(txid) && 0 <= i
            < after.txs[txid].transaction.inputs@.len() implies ({
        let o = #[trigger] after.txs[txid].transaction.inputs@[i];
        &&& after.spent.dom().contains(o)
        &&& after.spent[o] == InPoint::Regular { txid, vin: i as u32 }
    }) by {
        let o = after.txs[txid].transaction.inputs@[i];
        assert(pool.txs[txid].transaction.inputs@[i] == o);
        if inputs.contains(o) {
            let j = inputs.index_of(o);
            assert(pool.txs[gone].transaction.inputs@[j] == o);
        }
    }
}

/// Deleting transactions keeps the claims and the spent coins in step.
pub proof fn deleting_keeps_step(pool: MemPoolView, queue: Seq<Txid>)
    requires
        pool.txs.dom().finite(),
        claims_in_step(pool),
        spends_in_step(pool),
    ensures
        claims_in_step(deleted(pool, queue)),
        spends_in_step(deleted(pool, queue)),
    decreases pool.txs.dom().len(), queue.len(),
{
    if queue.len() > 0 {
        let txid = queue[0];
        if pool.txs.dom().contains(txid) {
            let next = one_deleted(pool, txid);
            lemma_one_keeps_step(pool, txid);
            deleting_keeps_step(
                next,
                queue.skip(1) + children(
                    next.spent,
                    txid,
                    pool.txs[txid].transaction.outputs@.len(),
                ),
            );
        } else {
            deleting_keeps_step(pool, queue.skip(1));
        }
    }
}

/// Deleting only takes away.
proof fn lemma_deleting_shrinks(pool: MemPoolView, queue: Seq<Txid>)
    requires
        pool.txs.dom().finite(),
    ensures
        forall|id: DecisionId| #[trigger]
            deleted(pool, queue).claims.dom().contains(id) ==> pool.claims.dom().contains(id),
        forall|txid: Txid| #[trigger]
            deleted(pool, queue).txs.dom().contains(txid) ==> pool.txs.dom().contains(txid),
        deleted(pool, queue).txs.dom().finite(),
    decreases pool.txs.dom().len(), queue.len(),
{
    if queue.len() > 0 {
        let txid = queue[0];
        if pool.txs.dom().contains(txid) {
            let next = one_deleted(pool, txid);
            lemma_claims_removed(pool.claims, claimed_ids(pool.txs[txid].transaction));
            lemma_deleting_shrinks(
                next,
                queue.skip(1) + children(
                    next.spent,
                    txid,
                    pool.txs[txid].transaction.outputs@.len(),
                ),
            );
        } else {
            lemma_deleting_shrinks(pool, queue.skip(1));
        }
    }
}

/// A transaction that is deleted leaves none of its claims behind.
pub proof fn deleting_clears_claims(pool: MemPoolView, txid: Txid)
    requires
        pool.txs.dom().finite(),
        pool.txs.dom().contains(txid),
    ensures
        !deleted(pool, seq![txid]).txs.dom().contains(txid),
        forall|i: int|
            0 <= i < claimed_ids(pool.txs[txid].transaction).len() ==> !deleted(
                pool,
                seq![txid],
            ).claims.dom().contains(#[trigger] claimed_ids(pool.txs[txid].transaction)[i]),
{
    let next = one_deleted(pool, txid);
    let ids = claimed_ids(pool.txs[txid].transaction);
    let rest = seq![txid].skip(1) + children(
        next.spent,
        txid,
        pool.txs[txid].transaction.outputs@.len(),
    );
    lemma_claims_removed(pool.claims, ids);
    lemma_deleting_shrinks(next, rest);
    assert(deleted(pool, seq![txid]) == deleted(next, rest));
    assert forall|i: int| 0 <= i < ids.len() implies !deleted(
        pool,
        seq![txid],
    ).claims.dom().contains(#[trigger] ids[i]) by {
        assert(ids.contains(ids[i]));
    }
}

/// What is noted as claimed is claimed by the transaction that is named.
pub open spec fn claims_are_backed(pool: MemPoolView) -> bool {
    forall|id: DecisionId| #[trigger]
        pool.claims.dom().contains(id) ==> pool.txs.dom().contains(pool.claims[id]) && claimed_ids(
            pool.txs[pool.claims[id]].transaction,
        ).contains(id)
}

/// Adding a transaction that is not in the pool keeps what is noted as claimed
/// backed.
pub proof fn putting_keeps_backing(pool: MemPoolView, tx: AuthorizedTransaction)
    requires
        claims_are_backed(pool),
        tx_put(pool, tx) is Ok,
        !pool.txs.dom().contains(tx.transaction.id()),
    ensures
        claims_are_backed(tx_put(pool, tx)->Ok_0),
{
    let new = tx.transaction.id();
    let after = tx_put(pool, tx)->Ok_0;
    let ids = claimed_ids(tx.transaction);
    lemma_claims_put(pool.claims, ids, new);
    assert(after.claims == claims_put(pool.claims, ids, new));
    assert(after.txs == pool.txs.insert(new, tx));
    assert forall|id: DecisionId| #[trigger] after.claims.dom().contains(id) implies after
        .txs.dom().contains(after.claims[id]) && claimed_ids(
        after.txs[after.claims[id]].transaction,
    ).contains(id) by {
        if !ids.contains(id) {
            assert(pool.claims.dom().contains(id));
        }
    }
}

proof fn lemma_deleting_keeps_backing(pool: MemPoolView, queue: Seq<Txid>)
    requires
        pool.txs.dom().finite(),
        claims_are_backed(pool),
    ensures
        claims_are_backed(deleted(pool, queue)),
        forall|id: DecisionId| #[trigger]
            deleted(pool, queue).claims.dom().contains(id) ==> pool.claims.dom().contains(id)
                && deleted(pool, queue).claims[id] == pool.claims[id],
    decreases pool.txs.dom().len(), queue.len(),
{
    if queue.len() > 0 {
        let txid = queue[0];
        if pool.txs.dom().contains(txid) {
            let next = one_deleted(pool, txid);
            let ids = claimed_ids(pool.txs[txid].transaction);
            lemma_claims_removed(pool.claims, ids);
            assert forall|id: DecisionId| #[trigger] next.claims.dom().contains(id) implies next
                .txs.dom().contains(next.claims[id]) && claimed_ids(
                next.txs[next.claims[id]].transaction,
            ).contains(id) by {
                assert(pool.claims.dom().contains(id));
            }
            lemma_deleting_keeps_backing(
                next,
                queue.skip(1) + children(
                    next.spent,
                    txid,
                    pool.txs[txid].transaction.outputs@.len(),
                ),
            );
        } else {
            lemma_deleting_keeps_backing(pool, queue.skip(1));
        }
    }
}

/// No competitor for a decision of a confirmed transaction is left after an
/// eviction.
pub proof fn evicting_leaves_no_competitor(
    pool: MemPoolView,
    ids: Seq<DecisionId>,
    confirmed: Txid,
)
    requires
        pool.txs.dom().finite(),
        claims_are_backed(pool),
    ensures
        claims_are_backed(evicted(pool, ids, confirmed).0),
        forall|i: int|
            0 <= i < ids.len() && evicted(pool, ids, confirmed).0.claims.dom().contains(
                #[trigger] ids[i],
            ) ==> evicted(pool, ids, confirmed).0.claims[ids[i]] == confirmed,
{
    lemma_evicting(pool, ids, confirmed);
}

proof fn lemma_evicting(pool: MemPoolView, ids: Seq<DecisionId>, confirmed: Txid)
    requires
        pool.txs.dom().finite(),
        claims_are_backed(pool),
    ensures
        ({
            let after = evicted(pool, ids, confirmed).0;
            &&& after.txs.dom().finite()
            &&& claims_are_backed(after)
            &&& forall|i: int|
                0 <= i < ids.len() && after.claims.dom().contains(#[trigger] ids[i])
                    ==> after.claims[ids[i]] == confirmed
        }),
    decreases ids.len(),
{
    if ids.len() > 0 {
        let front = ids.drop_last();
        lemma_evicting(pool, front, confirmed);
        let before = evicted(pool, front, confirmed).0;
        let id = ids.last();
        let after = evicted(pool, ids, confirmed).0;
        if before.claims.dom().contains(id) && before.claims[id] != confirmed {
            let txid = before.claims[id];
            lemma_deleting_shrinks(before, seq![txid]);
            lemma_deleting_keeps_backing(before, seq![txid]);
            deleting_clears_claims(before, txid);
            let gone = claimed_ids(before.txs[txid].transaction);
            assert(gone[gone.index_of(id)] == id);
        }
        assert forall|i: int| 0 <= i < ids.len() && after.claims.dom().contains(
            #[trigger] ids[i],
        ) implies after.claims[ids[i]] == confirmed by {
            if i < front.len() {
                assert(front[i] == ids[i]);
                assert(before.claims.dom().contains(front[i]));
            }
        }
    }
}

/// No row of the index is empty.
pub open spec fn rows_are_used(m: Map<Address, Map<Txid, ()>>) -> bool {
    forall|a: Address| #[trigger] m.dom().contains(a) ==> m[a] != Map::<Txid, ()>::empty()
}

/// Deleting a transaction that was just added gives the pool back, but for the
/// number of the last trade, when nothing in the pool knew of it.
pub proof fn deleting_undoes_putting(pool: MemPoolView, tx: AuthorizedTransaction)
    requires
        pool.txs.dom().finite(),
        tx_put(pool, tx) is Ok,
        tx.transaction.outputs@.len() <= u32::MAX,
        ({
            let txid = tx.transaction.id();
            &&& !pool.txs.dom().contains(txid)
            &&& rows_are_used(pool.by_address)
            &&& forall|a: Address| #[trigger]
                pool.by_address.dom().contains(a) ==> !pool.by_address[a].dom().contains(txid)
            &&& forall|i: int|
                0 <= i < claimed_ids(tx.transaction).len() ==> !pool.claims.dom().contains(
                    #[trigger] claimed_ids(tx.transaction)[i],
                )
            &&& forall|o: OutPoint| #[trigger]
                pool.spent.dom().contains(o) ==> !(o matches OutPoint::Regular { txid: t, vout }
                    && t == txid)
            &&& forall|i: int|
                0 <= i < tx.transaction.inputs@.len() ==> !(#[trigger]
                tx.transaction.inputs@[i] matches OutPoint::Regular { txid: t, vout } && t == txid)
            &&& is_trade(tx) ==> trade_removed(
                pool.trades.insert((last_number(pool.counter) + 1) as u64, txid),
                txid,
            ) == pool.trades
        }),
    ensures
        deleted(tx_put(pool, tx)->Ok_0, seq![tx.transaction.id()]) == (MemPoolView {
            counter: tx_put(pool, tx)->Ok_0.counter,
            ..pool
        }),
{
    let txid = tx.transaction.id();
    let after = tx_put(pool, tx)->Ok_0;
    let ids = claimed_ids(tx.transaction);
    let inputs = tx.transaction.inputs@;
    let next = one_deleted(after, txid);
    lemma_claims_put(pool.claims, ids, txid);
    lemma_claims_removed(after.claims, ids);
    lemma_stxos_put(pool.spent, inputs, txid);
    lemma_stxos_removed(after.spent, inputs);
    assert(next.txs =~= pool.txs);
    assert forall|o: OutPoint| #[trigger] next.spent.dom().contains(o) <==> pool.spent.dom().contains(
        o,
    ) by {
        if inputs.contains(o) {
            assert(inputs[inputs.index_of(o)] == o);
        }
    }
    assert(next.spent =~= pool.spent);
    assert forall|id: DecisionId| #[trigger]
        next.claims.dom().contains(id) <==> pool.claims.dom().contains(id) by {
        if ids.contains(id) {
            assert(ids[ids.index_of(id)] == id);
        }
    }
    assert(next.claims =~= pool.claims);
    assert forall|a: Address| #[trigger]
        next.by_address.dom().contains(a) <==> pool.by_address.dom().contains(a) by {
        if is_relevant(tx, a) {
            let row = txids_at(pool.by_address, a);
            assert(row.insert(txid, ()).remove(txid) =~= row);
        }
    }
    assert forall|a: Address| #[trigger] next.by_address.dom().contains(a) implies next.by_address[a]
        == pool.by_address[a] by {
        if is_relevant(tx, a) {
            let row = txids_at(pool.by_address, a);
            assert(row.insert(txid, ()).remove(txid) =~= row);
        }
    }
    assert(next.by_address =~= pool.by_address);
    lemma_no_children(next.spent, txid, tx.transaction.outputs@.len());
    let queue = seq![txid];
    assert(queue.skip(1) + children(
        next.spent,
        txid,
        tx.transaction.outputs@.len(),
    ) =~= Seq::empty());
    assert(deleted(after, queue) == deleted(next, Seq::empty()));
}

proof fn lemma_no_children(spent: Map<OutPoint, InPoint>, txid: Txid, n: nat)
    requires
        forall|o: OutPoint| #[trigger]
            spent.dom().contains(o) ==> !(o matches OutPoint::Regular { txid: t, vout } && t
                == txid),
    ensures
        children(spent, txid, n) == Seq::<Txid>::empty(),
    decreases n,
{
    if n > 0 {
        lemma_no_children(spent, txid, (n - 1) as nat);
        let o = OutPoint::Regular { txid, vout: (n - 1) as u32 };
        assert(!spent.dom().contains(o));
    }
}

/// The numbers of the trades in the pool are those given so far.
pub open spec fn numbers_were_given(pool: MemPoolView) -> bool {
    forall|n: u64| #[trigger] pool.trades.dom().contains(n) ==> n <= last_number(pool.counter)
}

/// A trade that comes into the pool gets a number above all others.
pub proof fn new_trades_get_the_last_number(
    pool: MemPoolView,
    tx: AuthorizedTransaction,
    after: MemPoolView,
)
    requires
        numbers_were_given(pool),
        last_number(pool.counter) < u64::MAX,
        is_trade(tx),
        tx_put(pool, tx) == Ok::<MemPoolView, Error>(after),
    ensures
        numbers_were_given(after),
        after.trades.dom().contains(last_number(after.counter)),
        after.trades[last_number(after.counter)] == tx.transaction.id(),
        !pool.trades.dom().contains(last_number(after.counter)),
{
}

/// The trades of a pool come in the order of their numbers, and so in the order
/// in which they came into the pool.
pub proof fn trades_come_in_order(pool: MemPoolView, i: int, j: int)
    requires
        has_rows(pool.trades),
        0 <= i < j < rows_of(pool.trades).len(),
    ensures
        rows_of(pool.trades)[i].0 < rows_of(pool.trades)[j].0,
{
    let rows = rows_of(pool.trades);
    assert(is_rows_of(rows, pool.trades));
    lemma_row(rows, i);
    lemma_row(rows, j);
    let a = rows[i].0;
    let b = rows[j].0;
    assert(bytes_before(a.key_bytes(), b.key_bytes()));
    be64_order(a, b);
}

} // verus!
