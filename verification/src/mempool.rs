//! The transactions that wait for a block.

use vstd::prelude::*;

use crate::replica::Replica;
use crate::state::decisions::types::DecisionId;
use crate::table::{rows_of, Table};
use crate::types::encoding::Encode;
use crate::types::transaction::output::TxOutput;
use crate::types::transaction::{
    is_relevant, AuthorizedTransaction, ClaimDecisionPayload, DecisionClaimEntry, InPoint,
    OutPoint, Transaction, TransactionData,
};
use crate::types::{Address, Duplicate, Txid};
use crate::validation::block::payloads_of;

verus! {

#[derive(Clone, Copy, Debug)]
pub enum Error {
    MissingTransaction(Txid),
    UtxoDoubleSpent,
    DecisionAlreadyClaimedInMempool(DecisionId),
    MempoolFull { current: usize, max: usize },
}

pub const MAX_MEMPOOL_TRANSACTIONS: usize = 5000;

pub struct MemPool {
    pub transactions: Table<Txid, AuthorizedTransaction>,
    pub spent_utxos: Table<OutPoint, InPoint>,
    /// The transactions in which an address has a part.
    pub address_to_txs: Table<Address, Table<Txid, ()>>,
    /// The transaction that claims a decision.
    pub pending_decision_claims: Table<DecisionId, Txid>,
    /// The trades, by the number under which they came in.
    pub trade_insertion_order: Table<u64, Txid>,
    pub trade_order_counter: Option<u64>,
}

#[verifier::ext_equal]
pub struct MemPoolView {
    pub txs: Map<Txid, AuthorizedTransaction>,
    pub spent: Map<OutPoint, InPoint>,
    pub by_address: Map<Address, Map<Txid, ()>>,
    pub claims: Map<DecisionId, Txid>,
    pub trades: Map<u64, Txid>,
    pub counter: Option<u64>,
}

pub open spec fn index_view(m: Map<Address, Table<Txid, ()>>) -> Map<Address, Map<Txid, ()>> {
    m.map_values(|t: Table<Txid, ()>| t@)
}

impl View for MemPool {
    type V = MemPoolView;

    open spec fn view(&self) -> MemPoolView {
        MemPoolView {
            txs: self.transactions@,
            spent: self.spent_utxos@,
            by_address: index_view(self.address_to_txs@),
            claims: self.pending_decision_claims@,
            trades: self.trade_insertion_order@,
            counter: self.trade_order_counter,
        }
    }
}

/// The decisions of some claims.
pub open spec fn entry_ids(entries: Seq<DecisionClaimEntry>) -> Seq<DecisionId> {
    Seq::new(entries.len(), |i: int| DecisionId(entries[i].decision_id_bytes))
}

pub open spec fn payload_ids(payloads: Seq<ClaimDecisionPayload>) -> Seq<DecisionId>
    decreases payloads.len(),
{
    if payloads.len() == 0 {
        Seq::empty()
    } else {
        payload_ids(payloads.drop_last()) + entry_ids(payloads.last().decisions@)
    }
}

/// The decisions that a transaction claims, in their order.
pub open spec fn claimed_ids(tx: Transaction) -> Seq<DecisionId> {
    payload_ids(payloads_of(tx))
}

fn push_entry_ids(list: &mut Vec<DecisionId>, entries: &Box<[DecisionClaimEntry]>)
    ensures
        final(list)@ == old(list)@ + entry_ids(entries@),
{
    let ghost all = entry_ids(entries@);
    let mut i: usize = 0;
    assert(all.subrange(0, 0) =~= Seq::empty());
    assert(list@ + all.subrange(0, 0) =~= list@);
    while i < entries.len()
        invariant
            i <= entries@.len(),
            all == entry_ids(entries@),
            list@ == old(list)@ + all.subrange(0, i as int),
        decreases entries@.len() - i,
    {
        list.push(DecisionId(entries[i].decision_id_bytes));
        assert(list@ =~= old(list)@ + all.subrange(0, i + 1));
        i += 1;
    }
    assert(all.subrange(0, i as int) =~= all);
}

/// The decisions that a transaction claims.
pub fn get_claimed_decision_ids(transaction: &Transaction) -> (r: Vec<DecisionId>)
    ensures
        r@ == claimed_ids(*transaction),
{
    let mut list: Vec<DecisionId> = Vec::new();
    match &transaction.data {
        Some(TransactionData::ClaimDecision(payload)) => {
            proof {
                let one = payloads_of(*transaction);
                assert(one.drop_last() =~= Seq::empty());
                assert(payload_ids(one.drop_last()) =~= Seq::empty());
            }
            push_entry_ids(&mut list, &payload.decisions);
            assert(list@ =~= claimed_ids(*transaction));
        },
        Some(TransactionData::CreateMarket { new_claims, .. }) => {
            let mut i: usize = 0;
            assert(new_claims@.subrange(0, 0) =~= Seq::empty());
            while i < new_claims.len()
                invariant
                    i <= new_claims@.len(),
                    list@ == payload_ids(new_claims@.subrange(0, i as int)),
                decreases new_claims@.len() - i,
            {
                assert(new_claims@.subrange(0, i + 1).drop_last() =~= new_claims@.subrange(
                    0,
                    i as int,
                ));
                push_entry_ids(&mut list, &new_claims[i].decisions);
                i += 1;
            }
            assert(new_claims@.subrange(0, i as int) =~= new_claims@);
        },
        _ => {},
    }
    list
}

/// The claims with those of a transaction.
pub open spec fn claims_put(m: Map<DecisionId, Txid>, ids: Seq<DecisionId>, txid: Txid) -> Map<
    DecisionId,
    Txid,
>
    decreases ids.len(),
{
    if ids.len() == 0 {
        m
    } else {
        claims_put(m, ids.drop_last(), txid).insert(ids.last(), txid)
    }
}

/// The first decision that another transaction claims.
pub open spec fn claim_conflict(m: Map<DecisionId, Txid>, ids: Seq<DecisionId>, txid: Txid)
    -> Option<DecisionId>
    decreases ids.len(),
{
    if ids.len() == 0 {
        None
    } else {
        match claim_conflict(m, ids.drop_last(), txid) {
            Some(id) => Some(id),
            None => if m.dom().contains(ids.last()) && m[ids.last()] != txid {
                Some(ids.last())
            } else {
                None
            },
        }
    }
}

/// The claims without those of a transaction.
pub open spec fn claims_removed(m: Map<DecisionId, Txid>, ids: Seq<DecisionId>) -> Map<
    DecisionId,
    Txid,
>
    decreases ids.len(),
{
    if ids.len() == 0 {
        m
    } else {
        claims_removed(m, ids.drop_last()).remove(ids.last())
    }
}

/// What is spent, with the inputs of a transaction. None may be spent yet.
pub open spec fn stxos_put(m: Map<OutPoint, InPoint>, inputs: Seq<OutPoint>, txid: Txid) -> Option<
    Map<OutPoint, InPoint>,
>
    decreases inputs.len(),
{
    if inputs.len() == 0 {
        Some(m)
    } else {
        match stxos_put(m, inputs.drop_last(), txid) {
            None => None,
            Some(before) => if before.dom().contains(inputs.last()) {
                None
            } else {
                Some(
                    before.insert(
                        inputs.last(),
                        InPoint::Regular { txid, vin: (inputs.len() - 1) as u32 },
                    ),
                )
            },
        }
    }
}

/// What is spent, without the inputs of a transaction.
pub open spec fn stxos_removed(m: Map<OutPoint, InPoint>, inputs: Seq<OutPoint>) -> Map<
    OutPoint,
    InPoint,
>
    decreases inputs.len(),
{
    if inputs.len() == 0 {
        m
    } else {
        stxos_removed(m, inputs.drop_last()).remove(inputs.last())
    }
}

pub open spec fn txids_at(m: Map<Address, Map<Txid, ()>>, address: Address) -> Map<Txid, ()> {
    if m.dom().contains(address) {
        m[address]
    } else {
        Map::empty()
    }
}

/// The index with a transaction, at each address that has a part in it.
pub open spec fn indexed(
    m: Map<Address, Map<Txid, ()>>,
    tx: AuthorizedTransaction,
    txid: Txid,
) -> Map<Address, Map<Txid, ()>> {
    Map::new(
        |a: Address| m.dom().contains(a) || is_relevant(tx, a),
        |a: Address|
            if is_relevant(tx, a) {
                txids_at(m, a).insert(txid, ())
            } else {
                m[a]
            },
    )
}

/// The index without a transaction. An address with no other loses its row.
pub open spec fn unindexed(
    m: Map<Address, Map<Txid, ()>>,
    tx: AuthorizedTransaction,
    txid: Txid,
) -> Map<Address, Map<Txid, ()>> {
    Map::new(
        |a: Address|
            m.dom().contains(a) && (is_relevant(tx, a) ==> m[a].remove(txid) != Map::<
                Txid,
                (),
            >::empty()),
        |a: Address|
            if is_relevant(tx, a) {
                m[a].remove(txid)
            } else {
                m[a]
            },
    )
}

pub open spec fn is_trade(tx: AuthorizedTransaction) -> bool {
    tx.transaction.data matches Some(data) && data is Trade
}

/// The number of the last trade.
pub open spec fn last_number(counter: Option<u64>) -> u64 {
    match counter {
        Some(n) => n,
        None => 0,
    }
}

/// The number of the first row with a transaction.
pub open spec fn number_of(rows: Seq<(u64, Txid)>, txid: Txid) -> Option<u64>
    decreases rows.len(),
{
    if rows.len() == 0 {
        None
    } else {
        match number_of(rows.drop_last(), txid) {
            Some(n) => Some(n),
            None => if rows.last().1 == txid {
                Some(rows.last().0)
            } else {
                None
            },
        }
    }
}

pub open spec fn trade_removed(trades: Map<u64, Txid>, txid: Txid) -> Map<u64, Txid> {
    match number_of(rows_of(trades), txid) {
        Some(n) => trades.remove(n),
        None => trades,
    }
}

/// The pool with a transaction.
pub open spec fn tx_put(pool: MemPoolView, tx: AuthorizedTransaction) -> Result<MemPoolView, Error> {
    let txid = tx.transaction.id();
    let ids = claimed_ids(tx.transaction);
    if pool.txs.dom().len() >= MAX_MEMPOOL_TRANSACTIONS {
        Err(
            Error::MempoolFull {
                current: pool.txs.dom().len() as usize,
                max: MAX_MEMPOOL_TRANSACTIONS,
            },
        )
    } else {
        match claim_conflict(pool.claims, ids, txid) {
            Some(id) => Err(Error::DecisionAlreadyClaimedInMempool(id)),
            None => match stxos_put(pool.spent, tx.transaction.inputs@, txid) {
                None => Err(Error::UtxoDoubleSpent),
                Some(spent) => {
                    let next = (last_number(pool.counter) + 1) as u64;
                    Ok(
                        MemPoolView {
                            txs: pool.txs.insert(txid, tx),
                            spent,
                            by_address: indexed(pool.by_address, tx, txid),
                            claims: claims_put(pool.claims, ids, txid),
                            trades: if is_trade(tx) {
                                pool.trades.insert(next, txid)
                            } else {
                                pool.trades
                            },
                            counter: if is_trade(tx) {
                                Some(next)
                            } else {
                                pool.counter
                            },
                        },
                    )
                },
            },
        }
    }
}

/// The pool without one transaction.
pub open spec fn one_deleted(pool: MemPoolView, txid: Txid) -> MemPoolView {
    let tx = pool.txs[txid];
    MemPoolView {
        txs: pool.txs.remove(txid),
        spent: stxos_removed(pool.spent, tx.transaction.inputs@),
        by_address: unindexed(pool.by_address, tx, tx.transaction.id()),
        claims: claims_removed(pool.claims, claimed_ids(tx.transaction)),
        trades: if is_trade(tx) {
            trade_removed(pool.trades, txid)
        } else {
            pool.trades
        },
        counter: pool.counter,
    }
}

/// The transactions that spend one of the first `n` outputs of a transaction.
pub open spec fn children(spent: Map<OutPoint, InPoint>, txid: Txid, n: nat) -> Seq<Txid>
    decreases n,
{
    if n == 0 {
        Seq::empty()
    } else {
        let before = children(spent, txid, (n - 1) as nat);
        let outpoint = OutPoint::Regular { txid, vout: (n - 1) as u32 };
        if spent.dom().contains(outpoint) {
            match spent[outpoint] {
                InPoint::Regular { txid: child, vin } => before.push(child),
                _ => before,
            }
        } else {
            before
        }
    }
}

/// The pool without some transactions and all that spend their outputs.
pub open spec fn deleted(pool: MemPoolView, queue: Seq<Txid>) -> MemPoolView
    decreases pool.txs.dom().len(), queue.len(),
    when pool.txs.dom().finite()
{
    if queue.len() == 0 {
        pool
    } else {
        let txid = queue[0];
        if pool.txs.dom().contains(txid) {
            let next = one_deleted(pool, txid);
            deleted(
                next,
                queue.skip(1) + children(
                    next.spent,
                    txid,
                    pool.txs[txid].transaction.outputs@.len(),
                ),
            )
        } else {
            deleted(pool, queue.skip(1))
        }
    }
}

/// Every transaction in the pool can be encoded.
pub open spec fn pool_fits(pool: MemPoolView) -> bool {
    forall|txid: Txid| #[trigger]
        pool.txs.dom().contains(txid) ==> pool.txs[txid].transaction.encodable()
}

/// The decisions for which a confirmed transaction evicts others: those of a
/// `ClaimDecision`, and none of any other transaction.
pub open spec fn contested_ids(tx: Transaction) -> Seq<DecisionId> {
    if tx.data matches Some(TransactionData::ClaimDecision(_)) {
        claimed_ids(tx)
    } else {
        Seq::empty()
    }
}

/// The pool without the transactions that claim one of some decisions in
/// competition with a confirmed one, and which these were.
pub open spec fn evicted(pool: MemPoolView, ids: Seq<DecisionId>, confirmed: Txid) -> (
    MemPoolView,
    Seq<Txid>,
)
    decreases ids.len(),
{
    if ids.len() == 0 {
        (pool, Seq::empty())
    } else {
        let (before, list) = evicted(pool, ids.drop_last(), confirmed);
        let id = ids.last();
        if before.claims.dom().contains(id) && before.claims[id] != confirmed {
            (deleted(before, seq![before.claims[id]]), list.push(before.claims[id]))
        } else {
            (before, list)
        }
    }
}

proof fn lemma_conflict_prefix(
    m: Map<DecisionId, Txid>,
    ids: Seq<DecisionId>,
    txid: Txid,
    n: int,
)
    requires
        0 <= n <= ids.len(),
        claim_conflict(m, ids.subrange(0, n), txid) is Some,
    ensures
        claim_conflict(m, ids, txid) == claim_conflict(m, ids.subrange(0, n), txid),
    decreases ids.len() - n,
{
    if n == ids.len() {
        assert(ids.subrange(0, n) =~= ids);
    } else {
        assert(ids.subrange(0, n + 1).drop_last() =~= ids.subrange(0, n));
        lemma_conflict_prefix(m, ids, txid, n + 1);
    }
}

proof fn lemma_stxos_prefix(m: Map<OutPoint, InPoint>, inputs: Seq<OutPoint>, txid: Txid, n: int)
    requires
        0 <= n <= inputs.len(),
        stxos_put(m, inputs.subrange(0, n), txid) is None,
    ensures
        stxos_put(m, inputs, txid) is None,
    decreases inputs.len() - n,
{
    if n == inputs.len() {
        assert(inputs.subrange(0, n) =~= inputs);
    } else {
        assert(inputs.subrange(0, n + 1).drop_last() =~= inputs.subrange(0, n));
        lemma_stxos_prefix(m, inputs, txid, n + 1);
    }
}

proof fn lemma_number_prefix(rows: Seq<(u64, Txid)>, txid: Txid, n: int)
    requires
        0 <= n <= rows.len(),
        number_of(rows.subrange(0, n), txid) is Some,
    ensures
        number_of(rows, txid) == number_of(rows.subrange(0, n), txid),
    decreases rows.len() - n,
{
    if n == rows.len() {
        assert(rows.subrange(0, n) =~= rows);
    } else {
        assert(rows.subrange(0, n + 1).drop_last() =~= rows.subrange(0, n));
        lemma_number_prefix(rows, txid, n + 1);
    }
}

impl MemPool {
    pub fn new() -> (r: Self)
        ensures
            r@ == (MemPoolView {
                txs: Map::empty(),
                spent: Map::empty(),
                by_address: Map::empty(),
                claims: Map::empty(),
                trades: Map::empty(),
                counter: None,
            }),
    {
        let r = MemPool {
            transactions: Table::new(),
            spent_utxos: Table::new(),
            address_to_txs: Table::new(),
            pending_decision_claims: Table::new(),
            trade_insertion_order: Table::new(),
            trade_order_counter: None,
        };
        assert(r@.by_address =~= Map::empty());
        r
    }

    /// A copy, to go back to where a change cannot be finished.
    pub fn duplicate(&self) -> (r: Self)
        ensures
            r@ == self@,
    {
        let r = MemPool {
            transactions: self.transactions.replica(),
            spent_utxos: self.spent_utxos.replica(),
            address_to_txs: self.address_to_txs.replica(),
            pending_decision_claims: self.pending_decision_claims.replica(),
            trade_insertion_order: self.trade_insertion_order.replica(),
            trade_order_counter: self.trade_order_counter,
        };
        proof {
            assert(r@.txs =~= self@.txs);
            assert(r@.spent =~= self@.spent);
            assert forall|a: Address| #[trigger]
                self.address_to_txs@.dom().contains(a) implies r.address_to_txs@[a]@
                == self.address_to_txs@[a]@ by {
                assert(self.address_to_txs@[a].same(r.address_to_txs@[a]));
                assert(r.address_to_txs@[a]@ =~= self.address_to_txs@[a]@);
            }
            assert(r@.by_address =~= self@.by_address);
            assert(r@.claims =~= self@.claims);
            assert(r@.trades =~= self@.trades);
        }
        r
    }

    /// Whether no input is spent yet, and none stands twice.
    fn are_free(&self, inputs: &Box<[OutPoint]>, txid: Txid) -> (r: bool)
        requires
            inputs@.len() <= u32::MAX,
        ensures
            r == (stxos_put(self@.spent, inputs@, txid) is Some),
    {
        let mut seen: Table<OutPoint, ()> = Table::new();
        let mut i: usize = 0;
        assert(inputs@.subrange(0, 0) =~= Seq::empty());
        while i < inputs.len()
            invariant
                i <= inputs@.len(),
                stxos_put(self@.spent, inputs@.subrange(0, i as int), txid) is Some,
                stxos_put(self@.spent, inputs@.subrange(0, i as int), txid)->0.dom()
                    =~= self@.spent.dom().union(seen@.dom()),
            decreases inputs@.len() - i,
        {
            proof {
                assert(inputs@.subrange(0, i + 1).drop_last() =~= inputs@.subrange(0, i as int));
            }
            if self.spent_utxos.contains(&inputs[i]) || seen.contains(&inputs[i]) {
                proof {
                    lemma_stxos_prefix(self@.spent, inputs@, txid, i + 1);
                }
                return false;
            }
            seen.put(inputs[i], ());
            i += 1;
        }
        assert(inputs@.subrange(0, i as int) =~= inputs@);
        true
    }

    /// Notes the inputs of a transaction as spent.
    fn put_stxos(&mut self, inputs: &Box<[OutPoint]>, txid: Txid)
        requires
            inputs@.len() <= u32::MAX,
            stxos_put(old(self)@.spent, inputs@, txid) is Some,
        ensures
            *final(self) == (MemPool { spent_utxos: final(self).spent_utxos, ..*old(self) }),
            stxos_put(old(self)@.spent, inputs@, txid) == Some(final(self)@.spent),
    {
        let ghost start = self.spent_utxos@;
        let mut i: usize = 0;
        assert(inputs@.subrange(0, 0) =~= Seq::empty());
        while i < inputs.len()
            invariant
                i <= inputs@.len() <= u32::MAX,
                start == old(self)@.spent,
                *self == (MemPool { spent_utxos: self.spent_utxos, ..*old(self) }),
                stxos_put(start, inputs@, txid) is Some,
                stxos_put(start, inputs@.subrange(0, i as int), txid) == Some(self.spent_utxos@),
            decreases inputs@.len() - i,
        {
            proof {
                assert(inputs@.subrange(0, i + 1).drop_last() =~= inputs@.subrange(0, i as int));
                if stxos_put(start, inputs@.subrange(0, i + 1), txid) is None {
                    lemma_stxos_prefix(start, inputs@, txid, i + 1);
                }
            }
            self.spent_utxos.put(inputs[i], InPoint::Regular { txid, vin: i as u32 });
            i += 1;
        }
        assert(inputs@.subrange(0, i as int) =~= inputs@);
    }

    fn delete_stxos(&mut self, inputs: &Box<[OutPoint]>)
        ensures
            *final(self) == (MemPool { spent_utxos: final(self).spent_utxos, ..*old(self) }),
            final(self)@.spent == stxos_removed(old(self)@.spent, inputs@),
    {
        let ghost start = self.spent_utxos@;
        let mut i: usize = 0;
        assert(inputs@.subrange(0, 0) =~= Seq::empty());
        while i < inputs.len()
            invariant
                i <= inputs@.len(),
                *self == (MemPool { spent_utxos: self.spent_utxos, ..*old(self) }),
                self.spent_utxos@ == stxos_removed(start, inputs@.subrange(0, i as int)),
            decreases inputs@.len() - i,
        {
            assert(inputs@.subrange(0, i + 1).drop_last() =~= inputs@.subrange(0, i as int));
            let _ = self.spent_utxos.delete(&inputs[i]);
            i += 1;
        }
        assert(inputs@.subrange(0, i as int) =~= inputs@);
    }

    /// Notes that an address has a part in a transaction.
    fn assoc_txid_with_address(&mut self, txid: Txid, address: &Address)
        ensures
            *final(self) == (MemPool { address_to_txs: final(self).address_to_txs, ..*old(self) }),
            final(self)@.by_address == old(self)@.by_address.insert(
                *address,
                txids_at(old(self)@.by_address, *address).insert(txid, ()),
            ),
    {
        let ghost m = self.address_to_txs@;
        let mut txids: Table<Txid, ()> = match self.address_to_txs.take(address) {
            Some(txids) => txids,
            None => Table::new(),
        };
        assert(txids@ == txids_at(index_view(m), *address));
        txids.put(txid, ());
        self.address_to_txs.put(*address, txids);
        assert(index_view(m.remove(*address).insert(*address, txids)) =~= index_view(m).insert(
            *address,
            txids@,
        ));
    }

    /// Notes the addresses that have a part in a transaction.
    fn index_tx_addresses(&mut self, tx: &AuthorizedTransaction, txid: Txid)
        ensures
            *final(self) == (MemPool { address_to_txs: final(self).address_to_txs, ..*old(self) }),
            final(self)@.by_address == indexed(old(self)@.by_address, *tx, txid),
    {
        let list = tx.relevant_addresses();
        let ghost start = self@.by_address;
        let mut i: usize = 0;
        while i < list.len()
            invariant
                i <= list@.len(),
                list@.no_duplicates(),
                *self == (MemPool { address_to_txs: self.address_to_txs, ..*old(self) }),
                forall|a: Address| #[trigger]
                    self@.by_address.dom().contains(a) <==> start.dom().contains(a)
                        || list@.subrange(0, i as int).contains(a),
                forall|a: Address| #[trigger]
                    self@.by_address.dom().contains(a) ==> self@.by_address[a] == if list@.subrange(
                        0,
                        i as int,
                    ).contains(a) {
                        txids_at(start, a).insert(txid, ())
                    } else {
                        start[a]
                    },
            decreases list@.len() - i,
        {
            let ghost before = self@.by_address;
            let ghost done = list@.subrange(0, i as int);
            let ghost next = list@.subrange(0, i + 1);
            proof {
                assert(next =~= done.push(list@[i as int]));
                if done.contains(list@[i as int]) {
                    let j = done.index_of(list@[i as int]);
                    assert(list@[j] == list@[i as int]);
                }
                assert forall|a: Address| next.contains(a) <==> done.contains(a) || a
                    == list@[i as int] by {
                    if done.contains(a) {
                        assert(next[done.index_of(a)] == a);
                    }
                    assert(next[i as int] == list@[i as int]);
                    if next.contains(a) && a != list@[i as int] {
                        assert(done[next.index_of(a)] == a);
                    }
                }
            }
            self.assoc_txid_with_address(txid, &list[i]);
            i += 1;
        }
        proof {
            assert(list@.subrange(0, i as int) =~= list@);
            assert(self@.by_address =~= indexed(start, *tx, txid));
        }
    }

    /// Forgets that an address has a part in a transaction.
    fn unassoc_txid_with_address(&mut self, txid: &Txid, address: &Address)
        ensures
            *final(self) == (MemPool { address_to_txs: final(self).address_to_txs, ..*old(self) }),
            final(self)@.by_address == ({
                let m = old(self)@.by_address;
                if !m.dom().contains(*address) {
                    m
                } else if m[*address].remove(*txid) == Map::<Txid, ()>::empty() {
                    m.remove(*address)
                } else {
                    m.insert(*address, m[*address].remove(*txid))
                }
            }),
    {
        let ghost m = self.address_to_txs@;
        match self.address_to_txs.take(address) {
            None => {
                assert(self.address_to_txs@ =~= m);
            },
            Some(txids) => {
                let mut txids = txids;
                let _ = txids.delete(txid);
                proof {
                    assert(index_view(m.remove(*address)) =~= index_view(m).remove(*address));
                    assert(index_view(m.remove(*address).insert(*address, txids)) =~= index_view(
                        m,
                    ).insert(*address, txids@));
                }
                if !txids.is_empty() {
                    self.address_to_txs.put(*address, txids);
                }
            },
        }
    }

    /// Forgets the addresses that have a part in a transaction.
    fn unindex_tx_addresses(&mut self, tx: &AuthorizedTransaction)
        requires
            tx.transaction.encodable(),
        ensures
            *final(self) == (MemPool { address_to_txs: final(self).address_to_txs, ..*old(self) }),
            final(self)@.by_address == unindexed(
                old(self)@.by_address,
                *tx,
                tx.transaction.id(),
            ),
    {
        let txid = tx.transaction.txid();
        let list = tx.relevant_addresses();
        let ghost start = self@.by_address;
        let mut i: usize = 0;
        while i < list.len()
            invariant
                i <= list@.len(),
                list@.no_duplicates(),
                *self == (MemPool { address_to_txs: self.address_to_txs, ..*old(self) }),
                forall|a: Address| #[trigger]
                    self@.by_address.dom().contains(a) <==> start.dom().contains(a) && (
                    list@.subrange(0, i as int).contains(a) ==> start[a].remove(txid) != Map::<
                        Txid,
                        (),
                    >::empty()),
                forall|a: Address| #[trigger]
                    self@.by_address.dom().contains(a) ==> self@.by_address[a] == if list@.subrange(
                        0,
                        i as int,
                    ).contains(a) {
                        start[a].remove(txid)
                    } else {
                        start[a]
                    },
            decreases list@.len() - i,
        {
            let ghost done = list@.subrange(0, i as int);
            let ghost next = list@.subrange(0, i + 1);
            proof {
                assert(next =~= done.push(list@[i as int]));
                if done.contains(list@[i as int]) {
                    let j = done.index_of(list@[i as int]);
                    assert(list@[j] == list@[i as int]);
                }
                assert forall|a: Address| next.contains(a) <==> done.contains(a) || a
                    == list@[i as int] by {
                    if done.contains(a) {
                        assert(next[done.index_of(a)] == a);
                    }
                    assert(next[i as int] == list@[i as int]);
                    if next.contains(a) && a != list@[i as int] {
                        assert(done[next.index_of(a)] == a);
                    }
                }
            }
            self.unassoc_txid_with_address(&txid, &list[i]);
            i += 1;
        }
        proof {
            assert(list@.subrange(0, i as int) =~= list@);
            assert(self@.by_address =~= unindexed(start, *tx, txid));
        }
    }

    /// The first decision that another transaction in the pool claims.
    fn find_claim_conflict(&self, txid: Txid, ids: &Vec<DecisionId>) -> (r: Option<DecisionId>)
        ensures
            r == claim_conflict(self@.claims, ids@, txid),
    {
        let ghost start = self.pending_decision_claims@;
        let mut i: usize = 0;
        assert(ids@.subrange(0, 0) =~= Seq::empty());
        while i < ids.len()
            invariant
                i <= ids@.len(),
                start == self.pending_decision_claims@,
                claim_conflict(start, ids@.subrange(0, i as int), txid) is None,
            decreases ids@.len() - i,
        {
            proof {
                assert(ids@.subrange(0, i + 1).drop_last() =~= ids@.subrange(0, i as int));
            }
            match self.pending_decision_claims.get(&ids[i]) {
                Some(existing) => if *existing != txid {
                    proof {
                        lemma_conflict_prefix(start, ids@, txid, i + 1);
                    }
                    return Some(ids[i]);
                },
                None => {},
            }
            i += 1;
        }
        assert(ids@.subrange(0, i as int) =~= ids@);
        None
    }

    /// Notes the decisions that a transaction claims.
    fn put_decision_claims(&mut self, txid: Txid, ids: &Vec<DecisionId>)
        ensures
            *final(self) == (MemPool {
                pending_decision_claims: final(self).pending_decision_claims,
                ..*old(self)
            }),
            final(self)@.claims == claims_put(old(self)@.claims, ids@, txid),
    {
        let ghost start = self.pending_decision_claims@;
        let mut k: usize = 0;
        assert(ids@.subrange(0, 0) =~= Seq::empty());
        while k < ids.len()
            invariant
                k <= ids@.len(),
                *self == (MemPool {
                    pending_decision_claims: self.pending_decision_claims,
                    ..*old(self)
                }),
                self.pending_decision_claims@ == claims_put(
                    start,
                    ids@.subrange(0, k as int),
                    txid,
                ),
            decreases ids@.len() - k,
        {
            assert(ids@.subrange(0, k + 1).drop_last() =~= ids@.subrange(0, k as int));
            self.pending_decision_claims.put(ids[k], txid);
            k += 1;
        }
        assert(ids@.subrange(0, k as int) =~= ids@);
    }

    fn delete_decision_claims(&mut self, transaction: &Transaction)
        ensures
            *final(self) == (MemPool {
                pending_decision_claims: final(self).pending_decision_claims,
                ..*old(self)
            }),
            final(self)@.claims == claims_removed(old(self)@.claims, claimed_ids(*transaction)),
    {
        let ids = get_claimed_decision_ids(transaction);
        let ghost start = self.pending_decision_claims@;
        let mut i: usize = 0;
        assert(ids@.subrange(0, 0) =~= Seq::empty());
        while i < ids.len()
            invariant
                i <= ids@.len(),
                *self == (MemPool {
                    pending_decision_claims: self.pending_decision_claims,
                    ..*old(self)
                }),
                self.pending_decision_claims@ == claims_removed(start, ids@.subrange(0, i as int)),
            decreases ids@.len() - i,
        {
            assert(ids@.subrange(0, i + 1).drop_last() =~= ids@.subrange(0, i as int));
            let _ = self.pending_decision_claims.delete(&ids[i]);
            i += 1;
        }
        assert(ids@.subrange(0, i as int) =~= ids@);
    }

    fn delete_trade_order(&mut self, txid: &Txid)
        ensures
            *final(self) == (MemPool {
                trade_insertion_order: final(self).trade_insertion_order,
                ..*old(self)
            }),
            final(self)@.trades == trade_removed(old(self)@.trades, *txid),
    {
        self.trade_insertion_order.rows_facts();
        let ghost rows = self.trade_insertion_order.rows();
        let n: usize = self.trade_insertion_order.len();
        let mut i: usize = 0;
        assert(rows.subrange(0, 0) =~= Seq::empty());
        while i < n
            invariant
                i <= n == rows.len(),
                *self == *old(self),
                rows == self.trade_insertion_order.rows(),
                rows == rows_of(self.trade_insertion_order@),
                number_of(rows.subrange(0, i as int), *txid) is None,
            decreases n - i,
        {
            proof {
                assert(rows.subrange(0, i + 1).drop_last() =~= rows.subrange(0, i as int));
            }
            let row = self.trade_insertion_order.row(i);
            if row.1 == *txid {
                let number: u64 = row.0;
                proof {
                    lemma_number_prefix(rows, *txid, i + 1);
                }
                let _ = self.trade_insertion_order.delete(&number);
                return;
            }
            i += 1;
        }
        assert(rows.subrange(0, i as int) =~= rows);
    }

    /// Why a transaction cannot be added. A pool holds so many transactions at
    /// most, spends no coin twice, and claims no decision twice.
    pub fn refusal(&self, transaction: &AuthorizedTransaction) -> (r: Option<Error>)
        requires
            transaction.transaction.encodable(),
        ensures
            match tx_put(self@, *transaction) {
                Ok(_) => r is None,
                Err(e) => r == Some(e),
            },
    {
        let txid = transaction.transaction.txid();
        self.transactions.rows_facts();
        let current: usize = self.transactions.len();
        if current >= MAX_MEMPOOL_TRANSACTIONS {
            return Some(Error::MempoolFull { current, max: MAX_MEMPOOL_TRANSACTIONS });
        }
        let ids = get_claimed_decision_ids(&transaction.transaction);
        match self.find_claim_conflict(txid, &ids) {
            Some(id) => return Some(Error::DecisionAlreadyClaimedInMempool(id)),
            None => {},
        }
        assert(transaction.transaction.inputs.encodable());
        if self.are_free(&transaction.transaction.inputs, txid) {
            None
        } else {
            Some(Error::UtxoDoubleSpent)
        }
    }

    /// Adds a transaction that is not refused.
    pub fn enter(&mut self, transaction: &AuthorizedTransaction)
        requires
            transaction.transaction.encodable(),
            old(self)@.counter != Some(u64::MAX),
            tx_put(old(self)@, *transaction) is Ok,
        ensures
            tx_put(old(self)@, *transaction) == Ok::<MemPoolView, Error>(final(self)@),
    {
        let txid = transaction.transaction.txid();
        let ids = get_claimed_decision_ids(&transaction.transaction);
        self.put_decision_claims(txid, &ids);
        assert(transaction.transaction.inputs.encodable());
        self.put_stxos(&transaction.transaction.inputs, txid);
        self.transactions.put(txid, transaction.duplicate());
        self.index_tx_addresses(transaction, txid);
        if is_trade_tx(transaction) {
            let next: u64 = match self.trade_order_counter {
                Some(n) => n + 1,
                None => 1,
            };
            self.trade_insertion_order.put(next, txid);
            self.trade_order_counter = Some(next);
        }
    }

    /// Adds a transaction. One that is refused leaves the pool as it was.
    pub fn put(&mut self, transaction: &AuthorizedTransaction) -> (r: Result<(), Error>)
        requires
            transaction.transaction.encodable(),
            old(self)@.counter != Some(u64::MAX),
        ensures
            match r {
                Ok(()) => tx_put(old(self)@, *transaction) == Ok::<MemPoolView, Error>(
                    final(self)@,
                ),
                Err(e) => {
                    &&& tx_put(old(self)@, *transaction) == Err::<MemPoolView, Error>(e)
                    &&& *final(self) == *old(self)
                },
            },
    {
        match self.refusal(transaction) {
            Some(e) => return Err(e),
            None => {},
        }
        self.enter(transaction);
        Ok(())
    }

    /// Deletes a transaction that is in the pool, and says how many outputs it
    /// has.
    fn delete_one(&mut self, txid: &Txid) -> (r: usize)
        requires
            old(self)@.txs.dom().contains(*txid),
            pool_fits(old(self)@),
        ensures
            final(self)@ == one_deleted(old(self)@, *txid),
            r == old(self)@.txs[*txid].transaction.outputs@.len(),
            r <= u32::MAX,
    {
        let tx = match self.transactions.take(txid) {
            None => return 0,
            Some(tx) => tx,
        };
        assert(tx.transaction.encodable());
        assert(tx.transaction.outputs.encodable());
        self.delete_stxos(&tx.transaction.inputs);
        self.unindex_tx_addresses(&tx);
        self.delete_decision_claims(&tx.transaction);
        if is_trade_tx(&tx) {
            self.delete_trade_order(txid);
        }
        tx.transaction.outputs.len()
    }

    fn push_children(&self, queue: &mut Vec<Txid>, txid: &Txid, outputs: usize)
        requires
            outputs <= u32::MAX,
        ensures
            final(queue)@ == old(queue)@ + children(self@.spent, *txid, outputs as nat),
    {
        let ghost start = queue@;
        let mut vout: usize = 0;
        assert(start + children(self@.spent, *txid, 0) =~= start);
        while vout < outputs
            invariant
                vout <= outputs <= u32::MAX,
                queue@ == start + children(self@.spent, *txid, vout as nat),
            decreases outputs - vout,
        {
            let outpoint = OutPoint::Regular { txid: *txid, vout: vout as u32 };
            let ghost before = children(self@.spent, *txid, vout as nat);
            match self.spent_utxos.get(&outpoint) {
                Some(InPoint::Regular { txid: child, vin: _ }) => {
                    queue.push(*child);
                    assert(queue@ =~= start + before.push(*child));
                },
                _ => {},
            }
            vout += 1;
        }
    }

    /// Deletes a transaction and all that spend its outputs.
    pub fn delete(&mut self, txid: Txid)
        requires
            pool_fits(old(self)@),
        ensures
            final(self)@ == deleted(old(self)@, seq![txid]),
            pool_fits(final(self)@),
    {
        let mut queue: Vec<Txid> = Vec::new();
        queue.push(txid);
        assert(queue@ =~= seq![txid]);
        self.transactions.rows_facts();
        while queue.len() > 0
            invariant
                pool_fits(self@),
                self@.txs.dom().finite(),
                deleted(self@, queue@) == deleted(old(self)@, seq![txid]),
            decreases self@.txs.dom().len(), queue@.len(),
        {
            let ghost before = self@;
            let ghost waiting = queue@;
            let next = queue.remove(0);
            assert(queue@ =~= waiting.skip(1));
            if self.transactions.contains(&next) {
                let outputs: usize = self.delete_one(&next);
                self.push_children(&mut queue, &next, outputs);
            }
        }
    }

    /// Evicts the transactions that claim a decision of a confirmed
    /// `ClaimDecision`: they have lost to it. All that spend their outputs go
    /// too. A confirmed transaction of another type evicts nothing.
    pub fn evict_decision_claim_conflicts(&mut self, confirmed_tx: &Transaction) -> (r: Vec<Txid>)
        requires
            confirmed_tx.encodable(),
            pool_fits(old(self)@),
        ensures
            (final(self)@, r@) == evicted(
                old(self)@,
                contested_ids(*confirmed_tx),
                confirmed_tx.id(),
            ),
            !(confirmed_tx.data matches Some(TransactionData::ClaimDecision(_))) ==> r@.len() == 0
                && final(self)@ == old(self)@,
            pool_fits(final(self)@),
    {
        match &confirmed_tx.data {
            Some(TransactionData::ClaimDecision(_)) => {},
            _ => return Vec::new(),
        }
        let confirmed = confirmed_tx.txid();
        let ids = get_claimed_decision_ids(confirmed_tx);
        let mut list: Vec<Txid> = Vec::new();
        let mut i: usize = 0;
        assert(ids@.subrange(0, 0) =~= Seq::empty());
        while i < ids.len()
            invariant
                i <= ids@.len(),
                pool_fits(self@),
                (self@, list@) == evicted(old(self)@, ids@.subrange(0, i as int), confirmed),
            decreases ids@.len() - i,
        {
            proof {
                assert(ids@.subrange(0, i + 1).drop_last() =~= ids@.subrange(0, i as int));
            }
            let zombie: Option<Txid> = match self.pending_decision_claims.get(&ids[i]) {
                Some(txid) => if *txid != confirmed {
                    Some(*txid)
                } else {
                    None
                },
                None => None,
            };
            match zombie {
                Some(txid) => {
                    self.delete(txid);
                    list.push(txid);
                },
                None => {},
            }
            i += 1;
        }
        assert(ids@.subrange(0, i as int) =~= ids@);
        list
    }

    /// The first transactions, in the order of their ids.
    pub fn take(&self, number: usize) -> (r: Vec<AuthorizedTransaction>)
        ensures
            ({
                let rows = rows_of(self@.txs);
                let n = if number <= rows.len() {
                    number as nat
                } else {
                    rows.len()
                };
                r@ == Seq::new(n, |i: int| rows[i].1)
            }),
    {
        self.transactions.rows_facts();
        let ghost rows = self.transactions.rows();
        let mut r: Vec<AuthorizedTransaction> = Vec::new();
        let mut i: usize = 0;
        while i < number && i < self.transactions.len()
            invariant
                i <= number,
                i <= rows.len(),
                rows == self.transactions.rows(),
                r@ == Seq::new(i as nat, |k: int| rows[k].1),
            decreases rows.len() - i,
        {
            r.push(self.transactions.row(i).1.duplicate());
            i += 1;
            assert(r@ =~= Seq::new(i as nat, |k: int| rows[k].1));
        }
        r
    }

    /// All transactions, in the order of their ids.
    pub fn take_all(&self) -> (r: Vec<AuthorizedTransaction>)
        ensures
            r@ == Seq::new(rows_of(self@.txs).len(), |i: int| rows_of(self@.txs)[i].1),
    {
        self.transactions.rows_facts();
        self.take(self.transactions.len())
    }

    /// The trades, in the order in which they came in.
    pub fn take_trades_ordered(&self) -> (r: Vec<AuthorizedTransaction>)
        ensures
            r@ == trades_listed(self@.txs, rows_of(self@.trades)),
    {
        self.trade_insertion_order.rows_facts();
        let ghost rows = self.trade_insertion_order.rows();
        let n: usize = self.trade_insertion_order.len();
        let mut r: Vec<AuthorizedTransaction> = Vec::new();
        let mut i: usize = 0;
        assert(rows.subrange(0, 0) =~= Seq::empty());
        while i < n
            invariant
                i <= n == rows.len(),
                rows == self.trade_insertion_order.rows(),
                r@ == trades_listed(self@.txs, rows.subrange(0, i as int)),
            decreases n - i,
        {
            assert(rows.subrange(0, i + 1).drop_last() =~= rows.subrange(0, i as int));
            match self.transactions.get(&self.trade_insertion_order.row(i).1) {
                Some(tx) => r.push(tx.duplicate()),
                None => {},
            }
            i += 1;
        }
        assert(rows.subrange(0, i as int) =~= rows);
        r
    }

    /// The outputs to an address that wait for a block.
    pub fn get_unconfirmed_utxos(&self, addr: &Address) -> (r: Result<
        Vec<(OutPoint, TxOutput)>,
        Error,
    >)
        requires
            pool_fits(self@),
        ensures
            match r {
                Ok(list) => unconfirmed(
                    self@.txs,
                    rows_of(txids_at(self@.by_address, *addr)),
                    *addr,
                ) == Ok::<Seq<(OutPoint, TxOutput)>, Error>(list@),
                Err(e) => unconfirmed(
                    self@.txs,
                    rows_of(txids_at(self@.by_address, *addr)),
                    *addr,
                ) == Err::<Seq<(OutPoint, TxOutput)>, Error>(e),
            },
    {
        let mut list: Vec<(OutPoint, TxOutput)> = Vec::new();
        let txids = match self.address_to_txs.get(addr) {
            None => {
                let none: Table<Txid, ()> = Table::new();
                none.rows_facts();
                assert(none@ =~= txids_at(self@.by_address, *addr));
                return Ok(list);
            },
            Some(txids) => txids,
        };
        txids.rows_facts();
        let ghost rows = txids.rows();
        let n: usize = txids.len();
        let mut i: usize = 0;
        assert(rows.subrange(0, 0) =~= Seq::empty());
        while i < n
            invariant
                i <= n == rows.len(),
                rows == txids.rows(),
                rows == rows_of(txids_at(self@.by_address, *addr)),
                pool_fits(self@),
                unconfirmed(self@.txs, rows.subrange(0, i as int), *addr) == Ok::<
                    Seq<(OutPoint, TxOutput)>,
                    Error,
                >(list@),
            decreases n - i,
        {
            let txid = txids.row(i).0;
            proof {
                assert(rows.subrange(0, i + 1).drop_last() =~= rows.subrange(0, i as int));
            }
            match self.transactions.get(&txid) {
                None => {
                    proof {
                        lemma_unconfirmed_prefix(self@.txs, rows, *addr, i + 1);
                    }
                    return Err(Error::MissingTransaction(txid));
                },
                Some(tx) => {
                    assert(tx.transaction.encodable());
                    push_outputs_to(&mut list, &tx.transaction, addr);
                },
            }
            i += 1;
        }
        assert(rows.subrange(0, i as int) =~= rows);
        Ok(list)
    }

    /// The decisions that are claimed, in ascending order.
    pub fn pending_decision_claim_ids(&self) -> (r: Vec<DecisionId>)
        ensures
            r@ == Seq::new(rows_of(self@.claims).len(), |i: int| rows_of(self@.claims)[i].0),
    {
        self.pending_decision_claims.rows_facts();
        let ghost rows = self.pending_decision_claims.rows();
        let n: usize = self.pending_decision_claims.len();
        let mut r: Vec<DecisionId> = Vec::new();
        let mut i: usize = 0;
        while i < n
            invariant
                i <= n == rows.len(),
                rows == self.pending_decision_claims.rows(),
                r@ == Seq::new(i as nat, |k: int| rows[k].0),
            decreases n - i,
        {
            r.push(self.pending_decision_claims.row(i).0);
            i += 1;
            assert(r@ =~= Seq::new(i as nat, |k: int| rows[k].0));
        }
        r
    }
}

fn is_trade_tx(transaction: &AuthorizedTransaction) -> (r: bool)
    ensures
        r == is_trade(*transaction),
{
    matches!(transaction.transaction.data, Some(TransactionData::Trade { .. }))
}

/// The trades of some rows that are in the pool.
pub open spec fn trades_listed(
    txs: Map<Txid, AuthorizedTransaction>,
    rows: Seq<(u64, Txid)>,
) -> Seq<AuthorizedTransaction>
    decreases rows.len(),
{
    if rows.len() == 0 {
        Seq::empty()
    } else {
        let before = trades_listed(txs, rows.drop_last());
        if txs.dom().contains(rows.last().1) {
            before.push(txs[rows.last().1])
        } else {
            before
        }
    }
}

/// The first `n` outputs of a transaction that are to an address.
pub open spec fn outputs_to(tx: Transaction, addr: Address, n: nat) -> Seq<(OutPoint, TxOutput)>
    decreases n,
{
    if n == 0 {
        Seq::empty()
    } else {
        let before = outputs_to(tx, addr, (n - 1) as nat);
        let output = tx.outputs@[n - 1];
        if output.address == addr {
            before.push((OutPoint::Regular { txid: tx.id(), vout: (n - 1) as u32 }, output))
        } else {
            before
        }
    }
}

/// The outputs to an address of the transactions of some rows.
pub open spec fn unconfirmed(
    txs: Map<Txid, AuthorizedTransaction>,
    rows: Seq<(Txid, ())>,
    addr: Address,
) -> Result<Seq<(OutPoint, TxOutput)>, Error>
    decreases rows.len(),
{
    if rows.len() == 0 {
        Ok(Seq::empty())
    } else {
        match unconfirmed(txs, rows.drop_last(), addr) {
            Err(e) => Err(e),
            Ok(before) => {
                let txid = rows.last().0;
                if txs.dom().contains(txid) {
                    let tx = txs[txid].transaction;
                    Ok(before + outputs_to(tx, addr, tx.outputs@.len()))
                } else {
                    Err(Error::MissingTransaction(txid))
                }
            },
        }
    }
}

proof fn lemma_unconfirmed_prefix(
    txs: Map<Txid, AuthorizedTransaction>,
    rows: Seq<(Txid, ())>,
    addr: Address,
    n: int,
)
    requires
        0 <= n <= rows.len(),
        unconfirmed(txs, rows.subrange(0, n), addr) is Err,
    ensures
        unconfirmed(txs, rows, addr) == unconfirmed(txs, rows.subrange(0, n), addr),
    decreases rows.len() - n,
{
    if n == rows.len() {
        assert(rows.subrange(0, n) =~= rows);
    } else {
        assert(rows.subrange(0, n + 1).drop_last() =~= rows.subrange(0, n));
        lemma_unconfirmed_prefix(txs, rows, addr, n + 1);
    }
}

fn push_outputs_to(list: &mut Vec<(OutPoint, TxOutput)>, tx: &Transaction, addr: &Address)
    requires
        tx.encodable(),
    ensures
        final(list)@ == old(list)@ + outputs_to(*tx, *addr, tx.outputs@.len()),
{
    let txid = tx.txid();
    assert(tx.outputs.encodable());
    let ghost start = list@;
    let mut vout: usize = 0;
    assert(start + outputs_to(*tx, *addr, 0) =~= start);
    while vout < tx.outputs.len()
        invariant
            vout <= tx.outputs@.len() <= u32::MAX,
            txid == tx.id(),
            list@ == start + outputs_to(*tx, *addr, vout as nat),
        decreases tx.outputs@.len() - vout,
    {
        let ghost before = outputs_to(*tx, *addr, vout as nat);
        let output = &tx.outputs[vout];
        if output.address == *addr {
            let outpoint = OutPoint::Regular { txid, vout: vout as u32 };
            list.push((outpoint, output.duplicate()));
            assert(list@ =~= start + before.push((outpoint, *output)));
        }
        vout += 1;
    }
}

} // verus!
