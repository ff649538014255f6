//! The pool of waiting transactions.

use truthcoin::authorization::{Authorization, Signature, VerifyingKey};
use truthcoin::mempool::{Error, MemPool};
use truthcoin::state::decisions::types::{DecisionId, DecisionType};
use truthcoin::state::markets::types::MarketId;
use truthcoin::types::transaction::output::{BitcoinContent, Content, Output, TxOutput};
use truthcoin::types::transaction::{
    Authorized, AuthorizedTransaction, ClaimDecisionPayload, DecisionClaimEntry, InPoint,
    OutPoint, Transaction, TransactionData,
};
use truthcoin::types::{Address, BlockHash, Txid};

fn input_outpoint(seed: u8) -> OutPoint {
    let mut bytes = [0u8; 32];
    bytes[0] = seed;
    OutPoint::Regular { txid: Txid(bytes), vout: 0 }
}

fn claim_entry(decision_id: [u8; 3]) -> DecisionClaimEntry {
    DecisionClaimEntry {
        decision_id_bytes: decision_id,
        header: "h".to_string(),
        description: String::new(),
        option_0_label: None,
        option_1_label: None,
        option_labels: None,
        tags: None,
    }
}

fn signed(transaction: Transaction) -> AuthorizedTransaction {
    Authorized { transaction, authorizations: vec![].into_boxed_slice(), actor_proof: None }
}

fn tx_with(input: OutPoint, data: Option<TransactionData>) -> Transaction {
    Transaction {
        inputs: vec![input].into_boxed_slice(),
        outputs: vec![].into_boxed_slice(),
        memo: vec![].into_boxed_slice(),
        data,
    }
}

fn claim_tx(input_seed: u8, decision_ids: &[[u8; 3]]) -> AuthorizedTransaction {
    let entries: Vec<DecisionClaimEntry> =
        decision_ids.iter().copied().map(claim_entry).collect();
    signed(tx_with(
        input_outpoint(input_seed),
        Some(TransactionData::ClaimDecision(ClaimDecisionPayload {
            decision_type: DecisionType::Binary,
            decisions: entries.into_boxed_slice(),
        })),
    ))
}

fn regular_tx(input_seed: u8) -> AuthorizedTransaction {
    signed(tx_with(input_outpoint(input_seed), None))
}

fn trade_tx(input_seed: u8) -> AuthorizedTransaction {
    signed(tx_with(
        input_outpoint(input_seed),
        Some(TransactionData::Trade {
            market_id: MarketId::new([1; 6]),
            outcome_index: 0,
            shares: 5,
            trader: Address([1; 20]),
            limit_sats: 100,
            tx_pow_nonce: None,
            prev_block_hash: BlockHash([0; 32]),
        }),
    ))
}

fn claim_of(mempool: &MemPool, did: [u8; 3]) -> Option<Txid> {
    mempool.pending_decision_claims.get(&DecisionId(did)).copied()
}

#[test]
fn evict_basic_conflict() {
    let mut mempool = MemPool::new();
    let did: [u8; 3] = [0x42, 0, 0];

    let tx_a = claim_tx(1, &[did]);
    let tx_b = claim_tx(2, &[did]);
    let txid_a = tx_a.transaction.txid();
    let txid_b = tx_b.transaction.txid();

    mempool.put(&tx_b).unwrap();
    assert_eq!(claim_of(&mempool, did), Some(txid_b));

    let evicted = mempool.evict_decision_claim_conflicts(&tx_a.transaction);

    assert_eq!(evicted, vec![txid_b]);
    assert!(claim_of(&mempool, did).is_none());
    assert!(mempool.transactions.get(&txid_b).is_none());
    assert!(
        mempool.transactions.get(&txid_a).is_none(),
        "tx_a was never inserted; helper should not insert it"
    );
}

#[test]
fn evict_noop_when_in_block_tx_equals_pending_claim() {
    let mut mempool = MemPool::new();
    let did: [u8; 3] = [1, 2, 3];

    let tx_a = claim_tx(7, &[did]);
    let txid_a = tx_a.transaction.txid();

    mempool.put(&tx_a).unwrap();

    let evicted = mempool.evict_decision_claim_conflicts(&tx_a.transaction);

    assert!(evicted.is_empty());
    assert_eq!(claim_of(&mempool, did), Some(txid_a));
    assert!(mempool.transactions.get(&txid_a).is_some());
}

#[test]
fn evict_noop_when_tx_is_not_claim_decision() {
    let mut mempool = MemPool::new();
    let did: [u8; 3] = [9, 9, 9];

    let zombie = claim_tx(3, &[did]);
    let txid_zombie = zombie.transaction.txid();
    let confirmed_regular = regular_tx(4);

    mempool.put(&zombie).unwrap();

    let evicted = mempool.evict_decision_claim_conflicts(&confirmed_regular.transaction);

    assert!(evicted.is_empty());
    assert_eq!(
        claim_of(&mempool, did),
        Some(txid_zombie),
        "regular tx should not touch decision-claim state"
    );
}

#[test]
fn evict_multi_decision_partial_overlap_clears_all_zombie_rows() {
    let mut mempool = MemPool::new();
    let x: [u8; 3] = [1, 1, 1];
    let y: [u8; 3] = [2, 2, 2];
    let z: [u8; 3] = [3, 3, 3];

    let zombie = claim_tx(5, &[x, z]);
    let txid_zombie = zombie.transaction.txid();
    let confirmed = claim_tx(6, &[x, y]);

    mempool.put(&zombie).unwrap();

    let evicted = mempool.evict_decision_claim_conflicts(&confirmed.transaction);

    assert_eq!(evicted, vec![txid_zombie]);
    assert!(claim_of(&mempool, x).is_none());
    assert!(
        claim_of(&mempool, z).is_none(),
        "cascade through delete() must clear all of zombie's claim rows, \
         not just the directly-conflicting one"
    );
}

#[test]
fn a_coin_is_spent_once_in_the_pool() {
    let mut mempool = MemPool::new();
    mempool.put(&regular_tx(1)).unwrap();
    let mut again = regular_tx(1);
    again.transaction.memo = vec![1].into_boxed_slice();
    assert!(matches!(mempool.put(&again), Err(Error::UtxoDoubleSpent)));
}

#[test]
fn a_transaction_that_is_refused_leaves_the_pool_as_it_was() {
    let mut mempool = MemPool::new();
    mempool.put(&regular_tx(1)).unwrap();
    let mut double = claim_tx(2, &[[1, 2, 3]]);
    double.transaction.inputs = vec![input_outpoint(2), input_outpoint(1)].into_boxed_slice();
    assert!(matches!(mempool.put(&double), Err(Error::UtxoDoubleSpent)));
    assert_eq!(mempool.transactions.len(), 1);
    assert_eq!(mempool.spent_utxos.len(), 1);
    assert!(mempool.pending_decision_claim_ids().is_empty());
    // neither the free coin nor the decision is taken
    mempool.put(&claim_tx(2, &[[1, 2, 3]])).unwrap();

    // an input that stands twice
    let mut twice = regular_tx(3);
    twice.transaction.inputs = vec![input_outpoint(3); 2].into_boxed_slice();
    assert!(matches!(mempool.put(&twice), Err(Error::UtxoDoubleSpent)));
    assert!(mempool.spent_utxos.get(&input_outpoint(3)).is_none());
}

#[test]
fn a_decision_is_claimed_once_in_the_pool() {
    let mut mempool = MemPool::new();
    mempool.put(&claim_tx(1, &[[1, 2, 3]])).unwrap();
    assert!(matches!(
        mempool.put(&claim_tx(2, &[[1, 2, 3]])),
        Err(Error::DecisionAlreadyClaimedInMempool(DecisionId([1, 2, 3])))
    ));
    let ids = mempool.pending_decision_claim_ids();
    assert_eq!(ids.len(), 1);
    assert_eq!(ids[0].0, [1, 2, 3]);
}

#[test]
fn the_pool_has_a_limit() {
    let mut mempool = MemPool::new();
    for n in 0..5000u32 {
        let mut bytes = [0u8; 32];
        bytes[..4].copy_from_slice(&n.to_be_bytes());
        let input = OutPoint::Regular { txid: Txid(bytes), vout: 0 };
        mempool.put(&signed(tx_with(input, None))).unwrap();
    }
    let last = OutPoint::Regular { txid: Txid([0xff; 32]), vout: 0 };
    assert!(matches!(
        mempool.put(&signed(tx_with(last, None))),
        Err(Error::MempoolFull { current: 5000, max: 5000 })
    ));
    assert_eq!(mempool.take_all().len(), 5000);
    assert_eq!(mempool.take(7).len(), 7);
}

#[test]
fn deleting_a_transaction_deletes_what_builds_on_it() {
    let mut mempool = MemPool::new();
    let owner = Address([9; 20]);
    let mut parent = regular_tx(1);
    parent.transaction.outputs =
        vec![TxOutput::new(owner, Content::Bitcoin(BitcoinContent(500)))].into_boxed_slice();
    parent.authorizations = vec![Authorization {
        verifying_key: VerifyingKey([1; 32]),
        signature: Signature([2; 64]),
    }]
    .into_boxed_slice();
    let parent_id = parent.transaction.txid();
    let made = OutPoint::Regular { txid: parent_id, vout: 0 };
    let child = signed(tx_with(made, None));
    let child_id = child.transaction.txid();

    mempool.put(&parent).unwrap();
    let waiting = mempool.get_unconfirmed_utxos(&owner).unwrap();
    assert_eq!(waiting.len(), 1);
    assert_eq!(waiting[0].0, made);
    assert_eq!(waiting[0].1, Output::new(owner, Content::Bitcoin(BitcoinContent(500))));

    mempool.put(&child).unwrap();
    assert_eq!(
        mempool.spent_utxos.get(&made).copied(),
        Some(InPoint::Regular { txid: child_id, vin: 0 })
    );

    mempool.delete(parent_id);
    assert!(mempool.transactions.is_empty());
    assert!(mempool.spent_utxos.is_empty());
    assert!(mempool.address_to_txs.is_empty());
    assert!(mempool.get_unconfirmed_utxos(&owner).unwrap().is_empty());
}

#[test]
fn deleting_leaves_the_pool_as_it_was() {
    let mut mempool = MemPool::new();
    mempool.put(&claim_tx(1, &[[1, 1, 1]])).unwrap();
    let more = claim_tx(2, &[[2, 2, 2]]);
    mempool.put(&more).unwrap();
    mempool.delete(more.transaction.txid());
    assert_eq!(mempool.transactions.len(), 1);
    assert_eq!(mempool.spent_utxos.len(), 1);
    assert_eq!(mempool.pending_decision_claims.len(), 1);
    assert_eq!(claim_of(&mempool, [2, 2, 2]), None);
}

#[test]
fn trades_are_taken_in_the_order_in_which_they_came() {
    let mut mempool = MemPool::new();
    let order = [5u8, 1, 9, 3];
    for seed in order {
        mempool.put(&trade_tx(seed)).unwrap();
    }
    mempool.put(&regular_tx(20)).unwrap();
    let taken: Vec<Txid> =
        mempool.take_trades_ordered().iter().map(|tx| tx.transaction.txid()).collect();
    let expected: Vec<Txid> =
        order.iter().map(|seed| trade_tx(*seed).transaction.txid()).collect();
    assert_eq!(taken, expected);
}

#[test]
fn a_confirmed_market_evicts_nothing() {
    let mut mempool = MemPool::new();
    let did: [u8; 3] = [7, 7, 7];
    let waiting = claim_tx(1, &[did]);
    let txid = waiting.transaction.txid();
    mempool.put(&waiting).unwrap();
    let confirmed = tx_with(
        input_outpoint(2),
        Some(TransactionData::CreateMarket {
            title: "t".to_string(),
            description: String::new(),
            dimension_specs: vec![].into_boxed_slice(),
            new_claims: vec![ClaimDecisionPayload {
                decision_type: DecisionType::Binary,
                decisions: vec![claim_entry(did)].into_boxed_slice(),
            }]
            .into_boxed_slice(),
            trading_fee: None,
            tx_pow_hash_selector: None,
            tx_pow_ordering: None,
            tx_pow_difficulty: None,
        }),
    );
    assert!(mempool.evict_decision_claim_conflicts(&confirmed).is_empty());
    assert_eq!(claim_of(&mempool, did), Some(txid));
}

#[test]
fn many_trades_are_taken_in_the_order_in_which_they_came() {
    let mut mempool = MemPool::new();
    let mut expected = vec![];
    for n in 0..300u32 {
        let mut tx = trade_tx(1);
        tx.transaction.inputs =
            vec![OutPoint::Regular { txid: Txid([9; 32]), vout: n }].into_boxed_slice();
        expected.push(tx.transaction.txid());
        mempool.put(&tx).unwrap();
    }
    let taken: Vec<Txid> =
        mempool.take_trades_ordered().iter().map(|tx| tx.transaction.txid()).collect();
    assert_eq!(taken, expected);
}
