//! Deposits from the mainchain, and withdrawals to it.

use bitcoin::secp256k1::{Secp256k1, SecretKey};
use bitcoin::Network;
use truthcoin::state::block::coins::{apply_utxo_changes, revert_utxo_changes};
use truthcoin::state::block::connect::{close_block, open_pricing, PrevalidatedBlock};
use truthcoin::state::block::progress::Connecting;
use truthcoin::state::ledger::{Ledger, UtxoManager};
use truthcoin::state::peg::{
    BlockEvent, BundleOutput, BundleRow, Deposit, EventBlock, Peg, TwoWayPegData,
    WithdrawalBundle, WithdrawalBundleEvent, WithdrawalBundleEventStatus, WithdrawalBundleInfo,
    WithdrawalBundleStatus, WITHDRAWAL_BUNDLE_FAILURE_GAP,
};
use truthcoin::state::rollback::RollBack;
use truthcoin::state::two_way_peg_data::{
    connect, connect_pending_bundle, disconnect, disconnect_withdrawal_bundle_failed,
};
use truthcoin::state::withdrawals::{
    aggregate_withdrawals, bundle_sizes, check_bundle_weight, collect_withdrawal_bundle,
    select_withdrawals, taken_fees, AggregatedWithdrawal,
};
use truthcoin::state::{Error, State};
use truthcoin::table::Table;
use truthcoin::types::block::{Body, Header};
use truthcoin::types::transaction::output::{
    BitcoinContent, Content, FilledContent, FilledOutput, MainAddress, TxOutput, WithdrawalContent,
};
use truthcoin::types::transaction::{FilledTransaction, InPoint, OutPoint, Transaction};
use truthcoin::types::{
    Address, BlockHash, M6id, MainBlockHash, MainOutPoint, MainTxid, MerkleRoot, Txid,
};

const NOBODY: Address = Address([0; 20]);

fn bitcoin_output(sats: u64) -> FilledOutput {
    FilledOutput::new(NOBODY, FilledContent::Bitcoin(BitcoinContent(sats)))
}

fn withdrawal(value: u64, main_fee: u64, script: &[u8]) -> FilledOutput {
    FilledOutput::new(
        NOBODY,
        FilledContent::BitcoinWithdrawal(WithdrawalContent {
            value,
            main_fee,
            main_address: MainAddress { script_pubkey: script.to_vec().into_boxed_slice() },
        }),
    )
}

fn regular(seed: u8) -> OutPoint {
    OutPoint::Regular { txid: Txid([seed; 32]), vout: 0 }
}

fn bundle(m6id: M6id, coins: Vec<(OutPoint, FilledOutput)>) -> WithdrawalBundle {
    WithdrawalBundle {
        m6id,
        block_height: 1,
        fee: 0,
        spend_utxos: coins.into_boxed_slice(),
        outputs: Vec::<BundleOutput>::new().into_boxed_slice(),
    }
}

fn events(block_hash: MainBlockHash, events: Vec<BlockEvent>) -> TwoWayPegData {
    TwoWayPegData {
        blocks: vec![EventBlock { block_hash, events: events.into_boxed_slice() }]
            .into_boxed_slice(),
    }
}

fn nothing() -> TwoWayPegData {
    TwoWayPegData { blocks: vec![].into_boxed_slice() }
}

fn bundle_event(m6id: M6id, status: WithdrawalBundleEventStatus) -> BlockEvent {
    BlockEvent::WithdrawalBundle(WithdrawalBundleEvent { m6id, status })
}

// a failed known bundle reinstates its utxos as spendable, so disconnecting
// the failure must spend them again
#[test]
fn disconnect_failed_bundle_spends_reinstated_utxo() {
    let mut ledger = Ledger::new();
    let mut peg = Peg::new();
    let outpoint = regular(1);
    let output = bitcoin_output(1000);
    let m6id = M6id([7; 32]);

    let mut status = RollBack::new(WithdrawalBundleStatus::Submitted, 0);
    status.push(WithdrawalBundleStatus::Failed, 1).unwrap();
    peg.withdrawal_bundles.put(
        m6id,
        BundleRow {
            info: WithdrawalBundleInfo::Known(bundle(m6id, vec![(outpoint, output.clone())])),
            status,
        },
    );
    peg.latest_failed_withdrawal_bundle = Some(RollBack::new(m6id, 1));
    // the failure reinstated the utxo
    ledger.insert_utxo(&outpoint, &output);

    disconnect_withdrawal_bundle_failed(&mut ledger, &mut peg, 1, m6id).unwrap();
    assert!(ledger.utxos.get(&outpoint).is_none());
    let stxo = ledger.stxos.get(&outpoint).unwrap();
    assert_eq!(stxo.inpoint, InPoint::Withdrawal { m6id });
}

// disconnecting a withdrawal bundle event must remove its
// withdrawal_bundle_event_blocks record, not a deposit_blocks record that
// happens to share the same sequence index
#[test]
fn disconnect_withdrawal_event_block_uses_correct_db() {
    let mut ledger = Ledger::new();
    let mut peg = Peg::new();

    let block_height = 5u32;
    let m6id = M6id([7; 32]);
    let event_block_hash = MainBlockHash([9; 32]);
    let deposit_block_hash = MainBlockHash([3; 32]);

    peg.withdrawal_bundles.put(
        m6id,
        BundleRow {
            info: WithdrawalBundleInfo::Unknown,
            status: RollBack::new(WithdrawalBundleStatus::Submitted, block_height),
        },
    );
    peg.withdrawal_bundle_event_blocks.put(0, (event_block_hash, block_height));
    // a deposit record at the same sequence index that must survive
    peg.deposit_blocks.put(0, (deposit_block_hash, block_height));

    let two_way_peg_data = events(
        event_block_hash,
        vec![bundle_event(m6id, WithdrawalBundleEventStatus::Submitted)],
    );

    disconnect(&mut ledger, &mut peg, Some(block_height), &two_way_peg_data).unwrap();
    assert!(peg.withdrawal_bundle_event_blocks.get(&0).is_none());
    assert!(peg.deposit_blocks.get(&0).is_some());
}

fn seeded_public_key(idx: u32) -> bitcoin::CompressedPublicKey {
    let secp = Secp256k1::new();
    let mut key_bytes = [0_u8; 32];
    key_bytes[28..].copy_from_slice(&idx.to_be_bytes());
    let secret_key = SecretKey::from_slice(&key_bytes)
        .expect("small non-zero integers are valid secret keys");
    let public_key = bitcoin::secp256k1::PublicKey::from_secret_key(&secp, &secret_key);
    bitcoin::CompressedPublicKey(public_key)
}

fn regtest_p2wpkh_script(idx: u32) -> Vec<u8> {
    let public_key = seeded_public_key(idx);
    bitcoin::Address::p2wpkh(&public_key, Network::Regtest).script_pubkey().to_bytes()
}

/// The transaction of a bundle: an input for the treasury, the fee, a
/// commitment to what is spent, and the payouts.
fn bundle_tx(outputs: &[BundleOutput]) -> bitcoin::Transaction {
    let metadata = [
        bitcoin::ScriptBuf::new_op_return([0u8; 8]),
        bitcoin::ScriptBuf::new_op_return([0u8; 32]),
    ];
    let mut output: Vec<bitcoin::TxOut> = metadata
        .into_iter()
        .map(|script_pubkey| bitcoin::TxOut { value: bitcoin::Amount::ZERO, script_pubkey })
        .collect();
    output.extend(outputs.iter().map(|out| bitcoin::TxOut {
        value: bitcoin::Amount::from_sat(out.value),
        script_pubkey: bitcoin::ScriptBuf::from_bytes(out.script_pubkey.to_vec()),
    }));
    bitcoin::Transaction {
        version: bitcoin::transaction::Version::TWO,
        lock_time: bitcoin::absolute::LockTime::ZERO,
        input: vec![bitcoin::TxIn::default()],
        output,
    }
}

#[test]
fn collect_withdrawal_bundle_p2wpkh_off_by_one_does_not_exceed_weight() {
    const CLAIMED_MAX_BUNDLE_OUTPUTS: u32 = 3_222;
    const TXOUT_SIZE: u32 = 31;

    let mut ledger = Ledger::new();
    for idx in 1..=CLAIMED_MAX_BUNDLE_OUTPUTS + 1 {
        let mut txid_bytes = [0_u8; 32];
        txid_bytes[28..].copy_from_slice(&idx.to_be_bytes());
        let outpoint = OutPoint::Regular { txid: Txid(txid_bytes), vout: 0 };
        ledger.insert_utxo(&outpoint, &withdrawal(1_000, 0, &regtest_p2wpkh_script(idx)));
    }

    let withdrawals = aggregate_withdrawals(&ledger.utxos).unwrap();
    assert_eq!(withdrawals.len(), CLAIMED_MAX_BUNDLE_OUTPUTS as usize + 1);
    let sizes: Vec<Option<u32>> = withdrawals.iter().map(|_| Some(TXOUT_SIZE)).collect();
    let bare = bundle_tx(&[]).weight().to_wu();
    let too_heavy: Vec<bool> = (1..=withdrawals.len() as u64)
        .map(|n| {
            // the number of outputs takes two bytes more
            let count_size = if n + 2 < 0xfd { 0 } else { 2 };
            check_bundle_weight(bare + 4 * (count_size + n * TXOUT_SIZE as u64)).is_err()
        })
        .collect();
    let draft = select_withdrawals(&withdrawals, &sizes, &too_heavy);

    let tx = bundle_tx(&draft.outputs);
    let output_count = tx.output.len();
    let weight = tx.weight().to_wu();
    assert_eq!(
        output_count,
        CLAIMED_MAX_BUNDLE_OUTPUTS as usize + 2,
        "expected outputs including metadata"
    );
    assert_eq!(draft.spend_utxos.len(), CLAIMED_MAX_BUNDLE_OUTPUTS as usize);
    assert!(
        weight <= bitcoin::policy::MAX_STANDARD_TX_WEIGHT as u64,
        "unexpected overweight P2WPKH bundle: {weight} wu"
    );
    let m6id = M6id([6; 32]);
    let bundle = collect_withdrawal_bundle(&withdrawals, &sizes, &too_heavy, 42, m6id, weight)
        .unwrap()
        .unwrap();
    assert_eq!((bundle.m6id, bundle.block_height, bundle.fee), (m6id, 42, 0));
    assert_eq!(bundle.outputs.len(), CLAIMED_MAX_BUNDLE_OUTPUTS as usize);
}

#[test]
fn a_bundle_is_made_where_something_is_withdrawn() {
    let mut ledger = Ledger::new();
    let collect = |list: &Vec<_>, m6id, weight| {
        let n = list.len();
        collect_withdrawal_bundle(list, &vec![Some(31); n], &vec![false; n], 1, m6id, weight)
    };
    let none = aggregate_withdrawals(&ledger.utxos).unwrap();
    let m6id = M6id([6; 32]);
    let made = collect(&none, m6id, 0);
    assert!(made.unwrap().is_none());
    ledger.insert_utxo(&regular(1), &withdrawal(10, 3, b"a"));
    let one = aggregate_withdrawals(&ledger.utxos).unwrap();
    let made = collect(&one, m6id, 500).unwrap().unwrap();
    assert_eq!((made.fee, made.outputs[0].value, made.spend_utxos[0].0), (3, 10, regular(1)));
    assert!(matches!(
        collect(&one, m6id, 400_001),
        Err(Error::BundleTooHeavy { .. })
    ));
}

#[test]
fn only_the_fees_of_withdrawals_that_are_taken_must_add_up() {
    let one = |main_fee| AggregatedWithdrawal {
        spend_utxos: vec![],
        main_address: MainAddress { script_pubkey: b"a".to_vec().into_boxed_slice() },
        value: 10,
        main_fee,
    };
    let list = vec![one(u64::MAX), one(1), one(1)];
    let sizes = vec![Some(31); 3];
    assert_eq!(taken_fees(&list, &sizes, &vec![false; 3]), None);
    let too_heavy = vec![false, true, false];
    assert_eq!(taken_fees(&list, &sizes, &too_heavy), Some(u64::MAX));
    let draft = select_withdrawals(&list, &sizes, &too_heavy);
    assert_eq!((draft.fee, draft.outputs.len()), (u64::MAX, 1));
}

/// Connects a block without transactions.
fn connect_empty_block(state: &mut State, header: &Header, block_hash: BlockHash) {
    let body = Body {
        coinbase: vec![],
        transactions: vec![],
        authorizations: vec![],
        actor_proofs: vec![],
    };
    let next_height = state.try_get_height().map_or(0, |height| height + 1);
    let prevalidated = PrevalidatedBlock {
        filled_transactions: vec![],
        computed_merkle_root: header.merkle_root,
        coinbase_value: 0,
        next_height,
    };
    let connecting = Connecting::open(state, header, &body, 0, 0, prevalidated).unwrap();
    let skipped = connecting.write(state, &Table::new(), 0).unwrap();
    let repriced = open_pricing(state, next_height, 0, 10);
    state.decisions.finish_block_pricing(&repriced);
    close_block(state, next_height, block_hash, 0, skipped, vec![], vec![]);
}

// connecting a deposit then disconnecting it on a reorg must round-trip
#[test]
fn deposit_reorg_round_trips() {
    let mut state = State::new(None, 0).unwrap();
    let main0 = MainBlockHash([10; 32]);
    let main1 = MainBlockHash([11; 32]);

    let merkle_root = MerkleRoot([1; 32]);
    let genesis = Header { merkle_root, prev_side_hash: None, prev_main_hash: main0 };
    let genesis_hash = BlockHash([20; 32]);
    connect_empty_block(&mut state, &genesis, genesis_hash);
    state.connect_two_way_peg_data(&nothing()).unwrap();

    let block1 =
        Header { merkle_root, prev_side_hash: Some(genesis_hash), prev_main_hash: main1 };
    let deposit_outpoint = MainOutPoint { txid: MainTxid([2; 32]), vout: 0 };
    let deposit_twpd = events(
        main1,
        vec![BlockEvent::Deposit(Deposit {
            outpoint: deposit_outpoint,
            output: bitcoin_output(1000),
        })],
    );
    connect_empty_block(&mut state, &block1, BlockHash([21; 32]));
    assert_eq!(state.try_get_height(), Some(1));
    state.connect_two_way_peg_data(&deposit_twpd).unwrap();
    let deposit = OutPoint::Deposit(deposit_outpoint);
    assert!(state.ledger.utxos.get(&deposit).is_some());
    assert!(state.deposit_blocks().last().is_some());
    assert_eq!(state.get_last_deposit_block_hash(), Some(main1));
    assert_eq!(state.compute_deposit_utxo_value(), 1000);
    assert_eq!(state.sidechain_wealth().unwrap(), 1000);

    state.disconnect_two_way_peg_data(&deposit_twpd).unwrap();
    assert!(state.ledger.utxos.get(&deposit).is_none());
    assert!(state.deposit_blocks().last().is_none());
}

#[test]
fn deposits_of_two_mainchain_blocks_are_taken_back() {
    let mut ledger = Ledger::new();
    let mut peg = Peg::new();
    let block = |n: u8| EventBlock {
        block_hash: MainBlockHash([n; 32]),
        events: vec![BlockEvent::Deposit(Deposit {
            outpoint: MainOutPoint { txid: MainTxid([n; 32]), vout: 0 },
            output: bitcoin_output(n as u64),
        })]
        .into_boxed_slice(),
    };
    let data = TwoWayPegData { blocks: vec![block(1), block(2)].into_boxed_slice() };
    connect(&mut ledger, &mut peg, Some(3), &data).unwrap();
    assert_eq!(ledger.utxos.len(), 2);
    assert_eq!(peg.deposit_blocks.last().unwrap().1, (MainBlockHash([2; 32]), 3));
    disconnect(&mut ledger, &mut peg, Some(3), &data).unwrap();
    assert!(ledger.utxos.is_empty());
    assert!(peg.deposit_blocks.is_empty());
}

/// A state whose pending bundle pays one withdrawal.
fn with_pending_bundle(m6id: M6id) -> (Ledger, Peg, OutPoint) {
    let mut ledger = Ledger::new();
    let mut peg = Peg::new();
    let outpoint = regular(1);
    let output = withdrawal(900, 100, b"script");
    ledger.insert_utxo(&outpoint, &output);
    connect_pending_bundle(&mut peg, 1, bundle(m6id, vec![(outpoint, output)])).unwrap();
    (ledger, peg, outpoint)
}

#[test]
fn a_bundle_is_submitted_and_confirmed() {
    let m6id = M6id([1; 32]);
    let (mut ledger, mut peg, outpoint) = with_pending_bundle(m6id);
    let (pending, height) = peg.get_pending_withdrawal_bundle().unwrap().unwrap();
    assert_eq!((pending.m6id, height), (m6id, 1));

    let submitted = events(
        MainBlockHash([2; 32]),
        vec![bundle_event(m6id, WithdrawalBundleEventStatus::Submitted)],
    );
    assert!(!connect(&mut ledger, &mut peg, Some(2), &submitted).unwrap());
    assert!(peg.pending_withdrawal_bundle.is_none());
    assert_eq!(ledger.stxos.get(&outpoint).unwrap().inpoint, InPoint::Withdrawal { m6id });
    assert_eq!(ledger.compute_withdrawal_stxo_value(), 1000);

    let confirmed = events(
        MainBlockHash([3; 32]),
        vec![bundle_event(m6id, WithdrawalBundleEventStatus::Confirmed)],
    );
    connect(&mut ledger, &mut peg, Some(3), &confirmed).unwrap();
    let row = peg.withdrawal_bundles.get(&m6id).unwrap();
    assert_eq!(row.status.latest().value, WithdrawalBundleStatus::Confirmed);

    // what was connected last is disconnected first
    disconnect(&mut ledger, &mut peg, Some(3), &confirmed).unwrap();
    disconnect(&mut ledger, &mut peg, Some(2), &submitted).unwrap();
    assert_eq!(peg.pending_withdrawal_bundle, Some(m6id));
    assert!(ledger.utxos.get(&outpoint).is_some());
    assert!(ledger.stxos.is_empty());
    assert!(peg.withdrawal_bundle_event_blocks.is_empty());
}

#[test]
fn a_failed_bundle_gives_its_coins_back() {
    let m6id = M6id([1; 32]);
    let (mut ledger, mut peg, outpoint) = with_pending_bundle(m6id);
    let submitted = events(
        MainBlockHash([2; 32]),
        vec![bundle_event(m6id, WithdrawalBundleEventStatus::Submitted)],
    );
    let failed = events(
        MainBlockHash([3; 32]),
        vec![bundle_event(m6id, WithdrawalBundleEventStatus::Failed)],
    );
    connect(&mut ledger, &mut peg, Some(2), &submitted).unwrap();
    assert!(ledger.utxos.get(&outpoint).is_none());
    connect(&mut ledger, &mut peg, Some(3), &failed).unwrap();
    assert!(ledger.utxos.get(&outpoint).is_some());
    assert_eq!(peg.get_latest_failed_withdrawal_bundle().unwrap(), Some((3, m6id)));

    disconnect(&mut ledger, &mut peg, Some(3), &failed).unwrap();
    assert!(ledger.utxos.get(&outpoint).is_none());
    assert_eq!(peg.get_latest_failed_withdrawal_bundle().unwrap(), None);
}

#[test]
fn a_new_bundle_waits_for_the_gap_after_a_failure() {
    let m6id = M6id([1; 32]);
    let (mut ledger, mut peg, _) = with_pending_bundle(m6id);
    let hash = MainBlockHash([2; 32]);
    let submitted = events(
        hash,
        vec![bundle_event(m6id, WithdrawalBundleEventStatus::Submitted)],
    );
    let failed = events(hash, vec![bundle_event(m6id, WithdrawalBundleEventStatus::Failed)]);
    connect(&mut ledger, &mut peg, Some(2), &submitted).unwrap();
    connect(&mut ledger, &mut peg, Some(3), &failed).unwrap();
    let soon = 3 + WITHDRAWAL_BUNDLE_FAILURE_GAP - 1;
    assert!(!connect(&mut ledger, &mut peg, Some(soon), &nothing()).unwrap());
    assert!(connect(&mut ledger, &mut peg, Some(soon + 1), &nothing()).unwrap());
}

#[test]
fn an_unknown_bundle_is_no_failure() {
    let mut ledger = Ledger::new();
    let mut peg = Peg::new();
    let m6id = M6id([8; 32]);
    let failed = events(
        MainBlockHash([3; 32]),
        vec![bundle_event(m6id, WithdrawalBundleEventStatus::Failed)],
    );
    assert!(matches!(
        connect(&mut ledger, &mut peg, Some(3), &failed),
        Err(Error::UnknownWithdrawalBundle { .. })
    ));
    assert!(matches!(
        connect(&mut ledger, &mut peg, None, &failed),
        Err(Error::NoTip)
    ));
}

#[test]
fn a_heavy_bundle_is_rejected() {
    assert!(check_bundle_weight(400_000).is_ok());
    assert!(matches!(
        check_bundle_weight(400_001),
        Err(Error::BundleTooHeavy { weight: 400_001, max_weight: 400_000 })
    ));
}

#[test]
fn withdrawals_are_gathered_by_address() {
    let mut ledger = Ledger::new();
    ledger.insert_utxo(&regular(1), &withdrawal(10, 1, b"a"));
    ledger.insert_utxo(&regular(2), &withdrawal(20, 2, b"b"));
    ledger.insert_utxo(&regular(3), &withdrawal(30, 3, b"a"));
    ledger.insert_utxo(&regular(4), &bitcoin_output(5));
    let mut list = aggregate_withdrawals(&ledger.utxos).unwrap();
    list.sort_by_key(|a| a.value);
    assert_eq!(list.len(), 2);
    assert_eq!((list[0].value, list[0].main_fee, list[0].spend_utxos.len()), (20, 2, 1));
    assert_eq!((list[1].value, list[1].main_fee, list[1].spend_utxos.len()), (40, 4, 2));

    ledger.insert_utxo(&regular(5), &withdrawal(u64::MAX, 0, b"a"));
    assert!(matches!(
        aggregate_withdrawals(&ledger.utxos),
        Err(Error::AmountOverflow(_))
    ));
}

#[test]
fn transactions_keep_the_wealth_of_the_chain() {
    let mut state = State::new(None, 0).unwrap();
    let deposit = OutPoint::Deposit(MainOutPoint { txid: MainTxid([2; 32]), vout: 0 });
    state.ledger.insert_utxo(&deposit, &bitcoin_output(1000));
    assert_eq!(state.sidechain_wealth().unwrap(), 1000);
    let tx = FilledTransaction {
        transaction: Transaction {
            inputs: vec![deposit].into_boxed_slice(),
            outputs: vec![TxOutput::new(NOBODY, Content::Bitcoin(BitcoinContent(400)))]
                .into_boxed_slice(),
            ..Default::default()
        },
        spent_utxos: vec![bitcoin_output(1000)].into_boxed_slice(),
        actor_address: None,
    };
    apply_utxo_changes(&mut state.ledger, &tx).unwrap();
    assert_eq!(state.compute_deposit_utxo_value(), 0);
    assert_eq!(state.compute_deposit_stxo_value(), 1000);
    assert_eq!(state.sidechain_wealth().unwrap(), 1000);
    revert_utxo_changes(&mut state.ledger, &tx.transaction).unwrap();
    assert_eq!(state.compute_deposit_utxo_value(), 1000);
}

#[test]
fn sizes_of_a_bundle_add_up() {
    assert_eq!(
        bundle_sizes(&vec![Some(31), None, Some(34), Some(u32::MAX), Some(1)]),
        vec![Some((1, 31)), None, Some((2, 65)), None, None]
    );
}
