//! What a node decides.

use truthcoin::authorization::{authorize, get_address, BatchVerificationContext, SigningKey};
use truthcoin::mempool::MemPool;
use truthcoin::node::blocks::{next_step, SubmitEvent, SubmitStep};
use truthcoin::node::mainchain::{AncestorStep, AncestorWalk, MainHeaderInfo};
use truthcoin::node::queries::{get_bmm_inclusions, InvalidationStep, TxIn};
use truthcoin::node::submit::{
    admit_transaction, shares_in_waiting, update_mempool_buy, update_mempool_sell, SubmitError,
};
use truthcoin::node::template::{candidates, BlockTemplate, Considered};
use truthcoin::node::Node;
use truthcoin::state::block::trades::TradeQuote;
use truthcoin::state::decisions::types::{Decision, DecisionId, DecisionType};
use truthcoin::state::ledger::UtxoManager;
use truthcoin::state::markets::database::{Market, MarketTerms};
use truthcoin::state::markets::types::{MarketId, MarketState};
use truthcoin::state::voting::types::VotingPeriodId;
use truthcoin::state::{Error, Reason, State};
use truthcoin::types::block::Body;
use truthcoin::types::transaction::output::{
    BitcoinContent, Content, FilledContent, FilledOutput, SpentOutput, TxOutput,
};
use truthcoin::types::transaction::{
    Authorized, AuthorizedTransaction, InPoint, OutPoint, Transaction, TransactionData,
};
use truthcoin::types::{Address, BlockHash, MainBlockHash, Real, Txid};
use truthcoin::validation::block::CheckFigures;
use truthcoin::validation::market::TradeLimits;

const MARKET: MarketId = MarketId([9; 6]);
const TRADER: Address = Address([3; 20]);
const MINER_FEE: u64 = 1_000;

fn node() -> Node {
    Node::new(State::new(Some(10), 5_000).unwrap(), MemPool::new())
}

fn market(state: MarketState) -> Market {
    Market {
        terms: MarketTerms {
            id: MARKET,
            creator_address: Address([0; 20]),
            title: String::new(),
            description: String::new(),
            tags: Box::default(),
            dimension_specs: Box::default(),
            decision_ids: Box::default(),
            trading_fee: Real { bits: 0 },
            tx_pow_hash_selector: 0,
            tx_pow_ordering: 0,
            tx_pow_difficulty: 0,
            created_at_height: 0,
        },
        state,
        shares: vec![5, 7],
        volumes: vec![0, 0],
        liquidity_base_sats: 1_000,
        last_updated_height: 0,
    }
}

fn outpoint(seed: u8) -> OutPoint {
    OutPoint::Regular { txid: Txid([seed; 32]), vout: 0 }
}

fn coin(node: &mut Node, seed: u8, address: Address, sats: u64) -> OutPoint {
    let output = FilledOutput::new(address, FilledContent::Bitcoin(BitcoinContent(sats)));
    node.state.insert_utxo(&outpoint(seed), &output);
    outpoint(seed)
}

fn signed(transaction: Transaction) -> AuthorizedTransaction {
    Authorized { transaction, authorizations: vec![].into_boxed_slice(), actor_proof: None }
}

fn plain(input: OutPoint, sats: u64) -> Transaction {
    Transaction {
        inputs: vec![input].into_boxed_slice(),
        outputs: vec![TxOutput::new(TRADER, Content::Bitcoin(BitcoinContent(sats)))]
            .into_boxed_slice(),
        memo: vec![].into_boxed_slice(),
        data: None,
    }
}

fn trade(input: OutPoint, shares: i64, limit_sats: u64) -> AuthorizedTransaction {
    signed(Transaction {
        inputs: vec![input].into_boxed_slice(),
        outputs: vec![].into_boxed_slice(),
        memo: vec![].into_boxed_slice(),
        data: Some(TransactionData::Trade {
            market_id: MARKET,
            outcome_index: 1,
            shares,
            trader: TRADER,
            limit_sats,
            tx_pow_nonce: None,
            prev_block_hash: BlockHash([0; 32]),
        }),
    })
}

fn limits() -> TradeLimits {
    TradeLimits { miner_fee_sats: MINER_FEE, pow_bound_window_blocks: 6 }
}

fn buy(total: u64) -> TradeQuote {
    TradeQuote::Buy { base_cost_sats: total, trading_fee_sats: 0, total_cost_sats: total }
}

#[test]
fn a_submitted_transaction_is_checked_and_waits() {
    let mut node = node();
    let key = SigningKey([1; 32]);
    let owner = get_address(&key.verifying_key().unwrap());
    let input = coin(&mut node, 1, owner, 100);
    let tx = authorize(&vec![(owner, key)], plain(input, 90)).unwrap();
    let ctxt = BatchVerificationContext::with_key([7; 32]);
    let fee = node
        .submit_transaction(&ctxt, &tx, 0, &CheckFigures::Nothing, &limits(), true)
        .unwrap();
    assert_eq!(fee, 10);
    assert_eq!(node.get_all_transactions().len(), 1);

    // its coin cannot be spent again
    let again = authorize(&vec![(owner, SigningKey([1; 32]))], plain(input, 80)).unwrap();
    assert!(matches!(
        node.submit_transaction(&ctxt, &again, 0, &CheckFigures::Nothing, &limits(), true),
        Err(SubmitError::Mempool(_))
    ));

    let (utxos, spent) = node.get_utxos_with_mempool_status(&vec![owner]);
    assert_eq!(utxos.len(), 1);
    let txid = tx.transaction.txid();
    assert_eq!(spent, vec![(input, InPoint::Regular { txid, vin: 0 })]);
    let waiting = node.get_unconfirmed_utxos_by_addresses(&vec![TRADER, owner]).unwrap();
    assert_eq!(waiting.len(), 1);
    assert_eq!(waiting.row(0).0, OutPoint::Regular { txid, vout: 0 });

    let (filled, place) = node.try_get_filled_transaction(None, &txid).unwrap().unwrap().unwrap();
    assert!(place.is_none());
    assert_eq!(filled.transaction.spent_utxos[0].address, owner);
    assert_eq!(node.try_get_transaction(None, &txid).unwrap(), Some(tx.transaction));

    node.remove_from_mempool(txid);
    assert!(node.get_all_transactions().is_empty());
    assert!(node.try_get_filled_transaction(None, &txid).unwrap().unwrap().is_none());
}

#[test]
fn a_refused_transaction_changes_nothing() {
    let mut node = node();
    let key = || SigningKey([1; 32]);
    let owner = get_address(&key().verifying_key().unwrap());
    let spent = coin(&mut node, 1, owner, 100);
    let free = coin(&mut node, 2, owner, 100);
    let ctxt = BatchVerificationContext::with_key([7; 32]);
    let first = authorize(&vec![(owner, key())], plain(spent, 90)).unwrap();
    node.submit_transaction(&ctxt, &first, 0, &CheckFigures::Nothing, &limits(), true).unwrap();

    // a free coin and one that is spent in the pool
    let both = Transaction {
        inputs: vec![free, spent].into_boxed_slice(),
        ..plain(free, 150)
    };
    let double = authorize(&vec![(owner, key()), (owner, key())], both).unwrap();
    assert!(matches!(
        node.submit_transaction(&ctxt, &double, 0, &CheckFigures::Nothing, &limits(), true),
        Err(SubmitError::Mempool(truthcoin::mempool::Error::UtxoDoubleSpent))
    ));
    assert_eq!(node.get_all_transactions().len(), 1);
    assert!(node.mempool.spent_utxos.get(&free).is_none());

    // a trade whose market cannot be priced afterwards
    node.state.markets.add_market(market(MarketState::Trading));
    let trade = trade(free, 10, 50);
    let Node { state, mempool } = &mut node;
    assert!(matches!(
        admit_transaction(&mut state.markets, mempool, &trade, false),
        Err(SubmitError::State(Error::InvalidDecisionId { .. }))
    ));
    assert_eq!(node.get_all_transactions().len(), 1);
    assert!(node.mempool.trade_insertion_order.is_empty());
    assert_eq!(node.get_mempool_shares(&MARKET), None);

    // the free coin is still there to spend
    let last = authorize(&vec![(owner, key())], plain(free, 90)).unwrap();
    node.submit_transaction(&ctxt, &last, 0, &CheckFigures::Nothing, &limits(), true).unwrap();
    assert_eq!(node.get_all_transactions().len(), 2);
}

#[test]
fn a_transaction_signed_by_another_is_refused() {
    let mut node = node();
    let key = SigningKey([1; 32]);
    let signer = get_address(&key.verifying_key().unwrap());
    let input = coin(&mut node, 1, TRADER, 100);
    let tx = authorize(&vec![(signer, key)], plain(input, 90)).unwrap();
    let ctxt = BatchVerificationContext::with_key([7; 32]);
    assert!(matches!(
        node.submit_transaction(&ctxt, &tx, 0, &CheckFigures::Nothing, &limits(), true),
        Err(SubmitError::State(Error::WrongPubKeyForAddress))
    ));
    let unsigned = signed(plain(input, 90));
    assert!(matches!(
        node.submit_transaction(&ctxt, &unsigned, 0, &CheckFigures::Nothing, &limits(), true),
        Err(SubmitError::State(Error::AuthorizationError))
    ));
}

#[test]
fn waiting_trades_move_the_shares_of_a_market() {
    let mut node = node();
    let markets = &mut node.state.markets;
    markets.add_market(market(MarketState::Trading));
    assert_eq!(shares_in_waiting(markets, &MARKET, 1, 10).unwrap().unwrap(), vec![5, 17]);
    update_mempool_buy(markets, &MARKET, 1, 10, true).unwrap();
    update_mempool_sell(markets, &MARKET, 0, 2, true).unwrap();
    assert_eq!(markets.get_mempool_shares(&MARKET), Some(&vec![3, 17]));
    assert!(update_mempool_buy(markets, &MARKET, 2, 1, true).is_err());
    assert!(update_mempool_buy(markets, &MARKET, 1, 1, false).is_err());
    assert!(update_mempool_buy(markets, &MarketId([1; 6]), 1, 1, true).is_err());
    assert_eq!(node.get_mempool_shares(&MARKET), Some(&vec![3, 17]));
    node.state.clear_mempool_shares(&MARKET);
    assert_eq!(node.get_mempool_shares(&MARKET), None);

    let mut closed = self::node();
    closed.state.markets.add_market(market(MarketState::Settled));
    update_mempool_buy(&mut closed.state.markets, &MARKET, 1, 10, true).unwrap();
    assert_eq!(closed.get_mempool_shares(&MARKET), None);
    assert!(matches!(
        closed.get_market_by_id_with_state(&MARKET),
        Some((_, MarketState::Settled))
    ));
}

#[test]
fn trades_go_last_into_a_block() {
    let mut node = node();
    let input = coin(&mut node, 1, TRADER, 10_000);
    let other = coin(&mut node, 2, TRADER, 10_000);
    let first = trade(input, 1, 5_000);
    let second = signed(plain(other, 9_000));
    node.mempool.put(&first).unwrap();
    node.mempool.put(&second).unwrap();
    let order: Vec<Txid> =
        candidates(&node.mempool, 10).iter().map(|tx| tx.transaction.txid()).collect();
    assert_eq!(order, vec![second.transaction.txid(), first.transaction.txid()]);
    assert_eq!(candidates(&node.mempool, 1).len(), 1);
}

fn consider(
    template: &mut BlockTemplate,
    node: &mut Node,
    tx: &AuthorizedTransaction,
    quote: &TradeQuote,
) -> Result<Considered, Error> {
    let Node { state, mempool } = node;
    template.consider(&state.ledger, &state.markets, mempool, tx.clone(), quote, MINER_FEE)
}

#[test]
fn a_block_takes_what_fits() {
    let mut node = node();
    node.state.markets.add_market(market(MarketState::Trading));
    let a = coin(&mut node, 1, TRADER, 10_000);
    let b = coin(&mut node, 2, TRADER, 10_000);
    let mut template = BlockTemplate::new();

    let pays = signed(plain(a, 9_900));
    node.mempool.put(&pays).unwrap();
    let taken = consider(&mut template, &mut node, &pays, &TradeQuote::Failed).unwrap();
    assert!(matches!(taken, Considered::Taken));
    assert_eq!(template.fee, 100);

    // a transaction that spends the coin again is deleted
    let again = signed(plain(a, 9_000));
    let deleted = consider(&mut template, &mut node, &again, &TradeQuote::Failed).unwrap();
    assert!(matches!(deleted, Considered::Deleted));
    // so is one whose coin is not there
    let unknown = signed(plain(outpoint(99), 1));
    let deleted = consider(&mut template, &mut node, &unknown, &TradeQuote::Failed).unwrap();
    assert!(matches!(deleted, Considered::Deleted));

    // a trade that is too dear is left for later
    let dear = trade(b, 10, 499);
    let skipped = consider(&mut template, &mut node, &dear, &buy(500)).unwrap();
    assert!(matches!(skipped, Considered::Skipped));
    let fair = trade(b, 10, 500);
    let taken = consider(&mut template, &mut node, &fair, &buy(500)).unwrap();
    assert!(matches!(taken, Considered::Taken));
    assert_eq!(template.market_shares.get(&MARKET), Some(&vec![5, 17]));
    assert_eq!(template.transactions.len(), 2);
    assert_eq!(template.spent_utxos.len(), 2);
    assert_eq!(template.fee, 100 + MINER_FEE);

    // nobody sells shares that they do not have
    let c = coin(&mut node, 3, TRADER, 10_000);
    let short = trade(c, -1, 0);
    let quote = TradeQuote::Sell { net_proceeds_sats: 1, trading_fee_sats: 0 };
    let skipped = consider(&mut template, &mut node, &short, &quote).unwrap();
    assert!(matches!(skipped, Considered::Skipped));
}

#[test]
fn a_block_goes_its_way() {
    let hash = BlockHash([1; 32]);
    let events = [
        (SubmitEvent::Parent { has_parent: true, known: true }, SubmitStep::RequestAncestors),
        (SubmitEvent::Ancestors { available: true }, SubmitStep::StoreHeader),
        (SubmitEvent::Committed { verified: true }, SubmitStep::CheckBodies),
        (SubmitEvent::MissingBodies(vec![hash]), SubmitStep::StoreBody),
        (SubmitEvent::BodyStored, SubmitStep::NewTip),
        (SubmitEvent::TipSet { accepted: true }, SubmitStep::Accepted),
    ];
    let mut step = SubmitStep::CheckParent;
    for (event, expected) in &events {
        step = next_step(step, event, &hash);
        assert_eq!(step, *expected);
    }
    for (event, _) in &events {
        assert_eq!(next_step(step, event, &hash), SubmitStep::Accepted);
    }
    let orphan = SubmitEvent::Parent { has_parent: true, known: false };
    assert_eq!(next_step(SubmitStep::CheckParent, &orphan, &hash), SubmitStep::Rejected);
    let missing = SubmitEvent::MissingBodies(vec![BlockHash([2; 32])]);
    assert_eq!(next_step(SubmitStep::CheckBodies, &missing, &hash), SubmitStep::Rejected);
    let none = SubmitEvent::MissingBodies(vec![]);
    assert_eq!(next_step(SubmitStep::CheckBodies, &none, &hash), SubmitStep::NewTip);
}

fn main_header(n: u8) -> MainHeaderInfo {
    MainHeaderInfo {
        block_hash: MainBlockHash([n; 32]),
        prev_block_hash: MainBlockHash([n - 1; 32]),
        height: n as u32,
    }
}

#[test]
fn headers_are_stored_from_the_earliest() {
    let mut walk = AncestorWalk::new(MainBlockHash([5; 32]), false);
    walk.answer(&Some(vec![main_header(5), main_header(4)]));
    assert!(matches!(
        walk.step,
        AncestorStep::LookUp { block_hash: MainBlockHash(hash) } if hash == [3; 32]
    ));
    walk.looked_up(false);
    assert!(matches!(walk.step, AncestorStep::Ask { max_ancestors: 19_999, .. }));
    walk.answer(&Some(vec![main_header(3), main_header(2)]));
    walk.looked_up(true);
    assert!(matches!(walk.step, AncestorStep::Store));
    let heights: Vec<u32> = walk.into_stored().iter().map(|info| info.height).collect();
    assert_eq!(heights, vec![2, 3, 4, 5]);

    let mut unknown = AncestorWalk::new(MainBlockHash([5; 32]), false);
    unknown.answer(&None);
    assert!(matches!(unknown.step, AncestorStep::Done { available: false }));
    let known = AncestorWalk::new(MainBlockHash([5; 32]), true);
    assert!(matches!(known.step, AncestorStep::Done { available: true }));
}

#[test]
fn a_transaction_is_found_in_its_block() {
    let mut node = node();
    let tx = plain(outpoint(1), 10);
    let txid = tx.txid();
    let body = Body {
        coinbase: vec![],
        transactions: vec![tx.clone()],
        authorizations: vec![],
        actor_proofs: vec![None],
    };
    let block = BlockHash([8; 32]);
    assert_eq!(node.try_get_transaction(Some((block, &body, 0)), &txid).unwrap(), Some(tx.clone()));
    assert!(matches!(
        node.try_get_transaction(Some((block, &body, 1)), &txid),
        Err(Error::InvalidTransaction {
            reason: Reason::TxIndexOutOfBounds { index: 1, block_hash }
        }) if block_hash == block
    ));
    assert_eq!(node.try_get_transaction(None, &txid).unwrap(), None);

    let spent = SpentOutput {
        output: FilledOutput::new(TRADER, FilledContent::Bitcoin(BitcoinContent(10))),
        inpoint: InPoint::Regular { txid, vin: 0 },
    };
    node.state.ledger.stxos.put(outpoint(1), spent);
    let place = TxIn { block_hash: BlockHash([1; 32]), idx: 0 };
    let found = node.try_get_filled_transaction(Some((signed(tx), place)), &txid);
    let (filled, at) = found.unwrap().unwrap().unwrap();
    assert_eq!(filled.transaction.spent_utxos.len(), 1);
    assert_eq!(at.unwrap().block_hash, BlockHash([1; 32]));
    assert_eq!(node.get_spent_utxos(&vec![outpoint(1), outpoint(2)]).len(), 1);
    // coins that another transaction spent
    let other = plain(outpoint(1), 9);
    assert!(node.try_get_filled_transaction(Some((signed(other), place)), &txid).is_none());
}

#[test]
fn the_chain_is_counted_back_from_the_tip() {
    let mut node = node();
    assert_eq!(node.get_tip_height().is_err(), true);
    node.state.tip = Some(BlockHash([9; 32]));
    node.state.height = Some(2);
    let ancestors = vec![BlockHash([9; 32]), BlockHash([8; 32]), BlockHash([7; 32])];
    assert_eq!(node.get_tip_height().unwrap(), 2);
    assert_eq!(node.try_get_block_hash(&ancestors, 1), Some(BlockHash([8; 32])));
    assert_eq!(node.try_get_block_hash(&ancestors, 3), None);
    assert!(node.is_in_current_chain(&ancestors, &BlockHash([7; 32]), 0));
    assert!(!node.is_in_current_chain(&ancestors, &BlockHash([7; 32]), 1));

    let parent = Some(BlockHash([8; 32]));
    assert_eq!(node.invalidation_step(&parent, true), InvalidationStep::DisconnectTip);
    assert_eq!(node.invalidation_step(&parent, false), InvalidationStep::MarkInvalid);
    node.state.tip = parent;
    assert_eq!(node.invalidation_step(&parent, true), InvalidationStep::MarkInvalid);
}

#[test]
fn only_verified_inclusions_count() {
    let results =
        vec![(MainBlockHash([1; 32]), true), (MainBlockHash([2; 32]), false)];
    assert_eq!(get_bmm_inclusions(&results), vec![MainBlockHash([1; 32])]);
}

#[test]
fn a_node_answers_from_its_state() {
    let mut node = node();
    assert!(node.is_decisions_testing_mode());
    assert_eq!(node.get_decisions_testing_config(), 10);
    assert!(node.get_decision_config().is_blocks_mode());
    assert_eq!(node.get_genesis_timestamp(), None);
    assert_eq!(node.get_mainchain_timestamp(), 0);
    node.state.mainchain_timestamp = Some(77);
    assert_eq!(node.get_last_block_timestamp(), 77);
    assert_eq!(node.get_sidechain_wealth().unwrap(), 0);
    assert_eq!(node.get_latest_failed_bundle_height().unwrap(), None);
    assert!(node.get_pending_withdrawal_bundle().unwrap().is_none());
    assert!(node.get_pending_decision_claim_ids().is_empty());
    assert!(node.get_all_utxos().is_empty());
    assert_eq!(node.reputation().count_holders(), 0);
    assert!(node.get_decisions_db().get_all_claimed_decisions().is_empty());

    let period = VotingPeriodId::new(2);
    assert!(node.get_consensus_outcomes(period).is_empty());
    assert!(node.resolve_voting_period(period).is_err());
    assert!(node.voting_state().get_period_outcomes(period).is_empty());
    assert_eq!(node.voting_state().count_consensus_decisions(period), 0);
    assert!(node.get_claimed_decisions_in_period(period).is_empty());
    assert!(node.get_listing_fee_info(0).is_none());
    node.state.decisions.mint_genesis(0, 0);
    assert_eq!(node.get_listing_fee_info(0).unwrap().p_period, 5_000);
    assert_eq!(node.state.get_all_decision_periods(0).len(), 20);
    assert!(node.state.get_decisions_for_period(0, 0) > 0);
}

#[test]
fn a_market_names_what_it_decides() {
    let mut node = node();
    node.state.decisions.mint_genesis(0, 0);
    let id = DecisionId::new(true, 1, 0).unwrap();
    let unclaimed = DecisionId::new(true, 1, 1).unwrap();
    let decision = Decision::new(
        [0; 20],
        DecisionType::Binary,
        "h".to_string(),
        String::new(),
        None,
        None,
        vec![].into_boxed_slice(),
        true,
    )
    .unwrap();
    node.state.decisions.claim_decision(id, decision, Txid([1; 32]), Some(0)).unwrap();
    let mut market = market(MarketState::Trading);
    market.terms.decision_ids = vec![id, unclaimed].into_boxed_slice();
    let named = node.get_market_decisions(&market);
    assert_eq!(named.len(), 1);
    assert_eq!(named.get(&id).unwrap().header, "h");
    assert!(node.get_decision_entry(id).is_some());
    assert!(node.get_decision_entry(unclaimed).is_none());
}
