//! Connecting and disconnecting blocks.

use truthcoin::state::block::connect::{
    close_block, open_pricing, periods_to_resolve, PrevalidatedBlock, TxFigures,
};
use truthcoin::state::block::creation::{compute_market_tags, MarketPlan};
use truthcoin::state::block::disconnect::{
    disconnect_tip, revert_own_transaction, UndoFigures,
};
use truthcoin::state::block::progress::{Connecting, Disconnecting};
use truthcoin::state::block::trades::{running_market_state, TradeQuote};
use truthcoin::state::block::votes::{transfer_parties, TransferResult};
use truthcoin::state::consolidation::{
    consolidate_market_utxos, FundsAddresses, PendingBuySettlement,
};
use truthcoin::state::decisions::types::{Decision, DecisionId, DecisionState, DecisionType};
use truthcoin::state::ledger::UtxoManager;
use truthcoin::state::markets::types::{DimensionSpec, MarketId, MarketState};
use truthcoin::state::update::{MarketStateUpdate, StateUpdate};
use truthcoin::state::voting::system::{
    commit_consensus_result, plan_consensus, ConsensusPlan, ConsensusUndoEntry, ReputationSums,
};
use truthcoin::state::voting::types::{VotingPeriod, VotingPeriodId};
use truthcoin::state::{Error, Reason, State};
use truthcoin::table::Table;
use truthcoin::types::block::{Body, Header};
use truthcoin::types::transaction::output::{
    BitcoinContent, Content, FilledContent, FilledOutput, GetBitcoinValue, TxOutput,
};
use truthcoin::types::transaction::{
    ClaimDecisionPayload, DecisionClaimEntry, FilledTransaction, InPoint, OutPoint, Transaction,
    TransactionData,
};
use truthcoin::types::{Address, BlockHash, MainBlockHash, MerkleRoot, Real, Txid};
use truthcoin::validation::BlockValidator;

const MINER: Address = Address([1; 20]);
const MAKER: Address = Address([2; 20]);
const TRADER: Address = Address([3; 20]);
const TREASURY: Address = Address([4; 20]);
const FEES: Address = Address([5; 20]);
const MINER_FEE: u64 = 1_000;
const MARKET: MarketId = MarketId([9; 6]);
const INTERVAL: u32 = 10;

fn bits_of(x: f64) -> Real {
    Real { bits: x.to_bits() }
}

fn number(x: Real) -> f64 {
    f64::from_bits(x.bits)
}

fn header(n: u8, prev: Option<u8>) -> Header {
    Header {
        merkle_root: MerkleRoot([n; 32]),
        prev_side_hash: prev.map(|prev| BlockHash([prev; 32])),
        prev_main_hash: MainBlockHash([0; 32]),
    }
}

fn body(coinbase: Vec<TxOutput>, transactions: Vec<Transaction>) -> Body {
    let n = transactions.len();
    Body { coinbase, transactions, authorizations: vec![], actor_proofs: vec![None; n] }
}

fn pay(address: Address, sats: u64) -> TxOutput {
    TxOutput::new(address, Content::Bitcoin(BitcoinContent(sats)))
}

fn coin(state: &mut State, seed: u8, address: Address, sats: u64) -> OutPoint {
    let outpoint = OutPoint::Regular { txid: Txid([seed; 32]), vout: 0 };
    let output = FilledOutput::new(address, FilledContent::Bitcoin(BitcoinContent(sats)));
    state.insert_utxo(&outpoint, &output);
    outpoint
}

fn next_height(state: &State) -> u32 {
    state.try_get_height().map_or(0, |height| height + 1)
}

/// Gives decisions that nobody voted on the default, when their vote is over.
fn reckon_unvoted(
    state: &mut State,
    current_period: u32,
    timestamp: u64,
    height: u32,
) -> Result<Vec<ConsensusUndoEntry>, Error> {
    let one = bits_of(1.0);
    let none = bits_of(0.0);
    let sums = ReputationSums {
        pre_sum: one,
        post_sum: one,
        block_drift: none,
        anchor: one,
        anchor_drift: none,
        block_limit: bits_of(1e-9),
        anchor_limit: bits_of(1e-6),
    };
    let mut undo = vec![];
    for (number, decision_ids) in periods_to_resolve(state, current_period) {
        let period = VotingPeriod { id: VotingPeriodId::new(number), decision_ids };
        let plan = plan_consensus(
            state.voting().databases(),
            state.reputation(),
            state.decisions(),
            &period,
            one,
            timestamp,
            height,
        );
        let ConsensusPlan::Settled(result) = plan else { continue };
        undo.push(commit_consensus_result(
            &mut state.voting.databases,
            &mut state.reputation,
            &mut state.decisions,
            result,
            &sums,
            None,
        )?);
    }
    Ok(undo)
}

/// Connects a block whose hash and root are `n`. Says what was skipped.
fn connect_block(
    state: &mut State,
    n: u8,
    body: &Body,
    figures: &[TxFigures],
    period: u32,
) -> Result<Vec<u32>, Error> {
    let header = header(n, state.try_get_tip().map(|tip| tip.0[0]));
    let height = next_height(state);
    let mut filled_transactions = vec![];
    for tx in &body.transactions {
        let mut filled = state.fill_transaction(tx)?;
        filled.actor_address = filled.spent_utxos.first().map(|spent| spent.address);
        filled_transactions.push(filled);
    }
    let prevalidated = PrevalidatedBlock {
        filled_transactions,
        computed_merkle_root: header.merkle_root,
        coinbase_value: body.coinbase.iter().map(|out| out.get_bitcoin_value()).sum(),
        next_height: height,
    };
    let timestamp = 1_000 + height as u64;
    let mut connecting =
        Connecting::open(state, &header, body, timestamp, period, prevalidated)?;
    while connecting.next_transaction().is_some() {
        let figures = &figures[connecting.taken];
        connecting.take_transaction(state, figures, MINER_FEE)?;
    }
    let mut addresses = Table::new();
    addresses.put(MARKET, FundsAddresses { treasury: TREASURY, author_fee: FEES });
    let skipped = connecting.write(state, &addresses, MINER_FEE)?;
    let repriced = open_pricing(state, height, period, INTERVAL);
    state.decisions.finish_block_pricing(&repriced);
    let reckoned = reckon_unvoted(state, period, timestamp, height)?;
    close_block(state, height, BlockHash([n; 32]), timestamp, skipped.clone(), reckoned, vec![]);
    Ok(skipped)
}

fn disconnect_block(
    state: &mut State,
    n: u8,
    prev: Option<u8>,
    body: &Body,
    figures: &[UndoFigures],
) -> Result<(), Error> {
    let header = header(n, prev);
    let mut disconnecting =
        Disconnecting::open(state, &header, body, BlockHash([n; 32]), header.merkle_root)?;
    while let Some(i) = disconnecting.next_index() {
        disconnecting.revert(state, &body.transactions[i], i, &figures[i]).unwrap()?;
    }
    disconnecting.finish(state, &header, body)
}

fn genesis() -> State {
    let mut state = State::new(Some(10), 5_000).unwrap();
    connect_block(&mut state, 100, &body(vec![pay(MINER, 0)], vec![]), &[], 0).unwrap();
    state
}

fn claim(input: OutPoint, id: DecisionId) -> Transaction {
    Transaction {
        inputs: vec![input].into_boxed_slice(),
        outputs: vec![].into_boxed_slice(),
        memo: vec![].into_boxed_slice(),
        data: Some(TransactionData::ClaimDecision(ClaimDecisionPayload {
            decision_type: DecisionType::Binary,
            decisions: vec![DecisionClaimEntry {
                decision_id_bytes: id.as_bytes(),
                header: "Will it rain?".to_string(),
                description: "In the capital".to_string(),
                option_0_label: None,
                option_1_label: None,
                option_labels: None,
                tags: Some(vec!["weather".to_string()].into_boxed_slice()),
            }]
            .into_boxed_slice(),
        })),
    }
}

fn create_market(input: OutPoint, id: DecisionId, sats: u64) -> Transaction {
    Transaction {
        inputs: vec![input].into_boxed_slice(),
        outputs: vec![TxOutput::new(
            TREASURY,
            Content::MarketFunds {
                market_id: MARKET.0,
                amount: BitcoinContent(sats),
                is_fee: false,
            },
        )]
        .into_boxed_slice(),
        memo: vec![].into_boxed_slice(),
        data: Some(TransactionData::CreateMarket {
            title: "Rain".to_string(),
            description: String::new(),
            dimension_specs: vec![DimensionSpec::Single(id)].into_boxed_slice(),
            new_claims: vec![].into_boxed_slice(),
            trading_fee: None,
            tx_pow_hash_selector: None,
            tx_pow_ordering: None,
            tx_pow_difficulty: None,
        }),
    }
}

fn plan() -> TxFigures {
    TxFigures::Creation {
        aligned: vec![],
        plan: Some(MarketPlan {
            id: MARKET,
            outcome_count: 2,
            default_trading_fee: bits_of(0.01),
        }),
    }
}

fn trade(input: OutPoint, shares: i64, limit_sats: u64) -> Transaction {
    trade_by(TRADER, input, shares, limit_sats)
}

fn trade_by(trader: Address, input: OutPoint, shares: i64, limit_sats: u64) -> Transaction {
    Transaction {
        inputs: vec![input].into_boxed_slice(),
        outputs: vec![].into_boxed_slice(),
        memo: vec![].into_boxed_slice(),
        data: Some(TransactionData::Trade {
            market_id: MARKET,
            outcome_index: 0,
            shares,
            trader,
            limit_sats,
            tx_pow_nonce: None,
            prev_block_hash: BlockHash([0; 32]),
        }),
    }
}

fn buy_quote(base: u64, fee: u64) -> TxFigures {
    TxFigures::Trade(TradeQuote::Buy {
        base_cost_sats: base,
        trading_fee_sats: fee,
        total_cost_sats: base + fee,
    })
}

fn sell_quote(net: u64, fee: u64) -> TxFigures {
    TxFigures::Trade(TradeQuote::Sell { net_proceeds_sats: net, trading_fee_sats: fee })
}

/// A state with a market in which nothing was traded.
fn with_market() -> State {
    let mut state = genesis();
    let id = DecisionId::new(true, 5, 0).unwrap();
    let input = coin(&mut state, 20, MAKER, 10_000);
    let claims = body(vec![], vec![claim(input, id)]);
    connect_block(&mut state, 101, &claims, &[TxFigures::Claim { aligned: true }], 0).unwrap();
    let input = coin(&mut state, 21, MAKER, 60_000);
    let creation = body(vec![], vec![create_market(input, id, 50_000)]);
    connect_block(&mut state, 102, &creation, &[plan()], 0).unwrap();
    state
}

#[test]
fn the_first_block_gives_its_miner_all_reputation() {
    let state = genesis();
    assert_eq!(number(state.reputation().get_reputation(&MINER)), 1.0);
    assert_eq!(state.try_get_height(), Some(0));
    assert_eq!(state.try_get_tip(), Some(BlockHash([100; 32])));
    assert_eq!(state.try_get_genesis_timestamp(), Some(1_000));
    assert_eq!(state.period_context(), (1_000, Some(0), 1_000));
    assert!(state.decisions.get_period_pricing(0).is_some());
}

#[test]
fn a_claim_is_connected_and_disconnected() {
    let mut state = genesis();
    let id = DecisionId::new(true, 5, 0).unwrap();
    let input = coin(&mut state, 20, MAKER, 10_000);
    let claims = body(vec![pay(MINER, 10_000)], vec![claim(input, id)]);
    connect_block(&mut state, 101, &claims, &[TxFigures::Claim { aligned: true }], 0).unwrap();

    let entry = state.decisions.get_decision_entry(id).unwrap();
    let decision = entry.decision.as_ref().unwrap();
    assert_eq!(decision.header, "Will it rain?");
    assert_eq!(decision.market_maker_pubkey_hash, MAKER.0);
    assert_eq!(entry.claiming_txid, claims.transactions[0].txid());
    assert_eq!(state.decisions.get_decision_current_state(id), DecisionState::Claimed);
    assert_eq!(state.claimed_count_in_period(5), 1);
    let spent = state.stxos().get(&input).unwrap();
    assert_eq!(
        spent.inpoint,
        InPoint::Regular { txid: claims.transactions[0].txid(), vin: 0 }
    );
    let reward = OutPoint::Coinbase { merkle_root: MerkleRoot([101; 32]), vout: 0 };
    assert_eq!(state.get_utxos().get(&reward).unwrap().get_bitcoin_value(), 10_000);

    disconnect_block(&mut state, 101, Some(100), &claims, &[UndoFigures::Nothing]).unwrap();
    assert_eq!(state.try_get_height(), Some(0));
    assert_eq!(state.try_get_tip(), Some(BlockHash([100; 32])));
    assert!(state.decisions.get_decision_entry(id).is_none());
    assert!(state.stxos().is_empty());
    assert!(state.get_utxos().get(&reward).is_none());
    assert!(state.get_utxos().get(&input).is_some());
}

#[test]
fn a_decision_that_is_claimed_twice_has_two_entries() {
    let mut state = genesis();
    let id = DecisionId::new(true, 5, 0).unwrap();
    let first = coin(&mut state, 20, MAKER, 10);
    let second = coin(&mut state, 21, TRADER, 10);
    let claims = body(vec![], vec![claim(first, id), claim(second, id)]);
    // a block with both is refused before it gets here
    assert!(matches!(
        BlockValidator::check_duplicate_decision_claims(&claims.transactions),
        Err(Error::DuplicateDecisionClaim(bytes)) if bytes == id.0
    ));
    let figures = [TxFigures::Claim { aligned: true }, TxFigures::Claim { aligned: true }];
    connect_block(&mut state, 101, &claims, &figures, 0).unwrap();
    // the entry of the maker with the lower address is found
    let entry = state.decisions.get_decision_entry(id).unwrap();
    assert_eq!(entry.claiming_txid, claims.transactions[0].txid());
    assert_eq!(state.decisions.get_claimed_decisions_in_period(5).len(), 2);
    assert_eq!(state.claimed_count_in_period(5), 1);
    state.decisions.revert_decision_claim(id);
    let entry = state.decisions.get_decision_entry(id).unwrap();
    assert_eq!(entry.claiming_txid, claims.transactions[1].txid());
}

#[test]
fn a_plain_block_is_undone() {
    let mut state = genesis();
    let input = coin(&mut state, 20, MAKER, 10_000);
    let before = state.get_utxos().len();
    let first = Transaction {
        inputs: vec![input].into_boxed_slice(),
        outputs: vec![pay(TRADER, 4_000), pay(MAKER, 5_000)].into_boxed_slice(),
        ..Default::default()
    };
    let paid = OutPoint::Regular { txid: first.txid(), vout: 0 };
    let block = body(vec![pay(MINER, 1_000)], vec![first]);
    connect_block(&mut state, 101, &block, &[TxFigures::Nothing], 0).unwrap();
    assert_eq!(state.try_get_height(), Some(1));
    assert!(state.get_utxos().get(&input).is_none());
    assert_eq!(state.get_utxos().get(&paid).unwrap().get_bitcoin_value(), 4_000);
    // the hash of another block
    assert!(matches!(
        disconnect_block(&mut state, 102, Some(100), &block, &[UndoFigures::Nothing]),
        Err(Error::InvalidHeader(_))
    ));
    disconnect_block(&mut state, 101, Some(100), &block, &[UndoFigures::Nothing]).unwrap();
    assert_eq!(state.try_get_height(), Some(0));
    assert_eq!(state.try_get_tip(), Some(BlockHash([100; 32])));
    assert_eq!(state.get_utxos().len(), before);
    assert_eq!(state.get_utxos().get(&input).unwrap().get_bitcoin_value(), 10_000);
    assert!(state.get_utxos().get(&paid).is_none());
    assert!(state.stxos().is_empty());
}

#[test]
fn a_decision_is_put_to_the_vote_when_its_period_is_over() {
    let mut state = genesis();
    let id = DecisionId::new(true, 1, 0).unwrap();
    let input = coin(&mut state, 20, MAKER, 10);
    let claims = body(vec![], vec![claim(input, id)]);
    connect_block(&mut state, 101, &claims, &[TxFigures::Claim { aligned: true }], 0).unwrap();
    let empty = body(vec![], vec![]);
    connect_block(&mut state, 102, &empty, &[], 1).unwrap();
    assert!(!state.is_decision_in_voting(id));
    connect_block(&mut state, 103, &empty, &[], 2).unwrap();
    assert!(state.is_decision_in_voting(id));
    assert!(state.decisions.get_period_pricing(21).is_some());
    assert!(periods_to_resolve(&state, 2).is_empty());
    let due = periods_to_resolve(&state, 3);
    assert_eq!(due.len(), 1);
    assert_eq!(due[0].1, vec![id]);

    disconnect_block(&mut state, 103, Some(102), &empty, &[]).unwrap();
    assert!(!state.is_decision_in_voting(id));
    assert_eq!(state.decisions.get_decision_current_state(id), DecisionState::Claimed);
    assert!(state.decisions.get_period_pricing(21).is_none());
}

#[test]
fn a_block_that_reckons_a_period_is_undone() {
    let mut state = genesis();
    let id = DecisionId::new(true, 1, 0).unwrap();
    let input = coin(&mut state, 20, MAKER, 10);
    let claims = body(vec![], vec![claim(input, id)]);
    connect_block(&mut state, 101, &claims, &[TxFigures::Claim { aligned: true }], 0).unwrap();
    let empty = body(vec![], vec![]);
    connect_block(&mut state, 102, &empty, &[], 2).unwrap();
    assert!(state.is_decision_in_voting(id));
    let reputation = state.reputation().get_reputation(&MINER);

    let spent = coin(&mut state, 21, MAKER, 10_000);
    let payment = Transaction {
        inputs: vec![spent].into_boxed_slice(),
        outputs: vec![pay(TRADER, 10_000)].into_boxed_slice(),
        ..Default::default()
    };
    let block = body(vec![], vec![payment]);
    connect_block(&mut state, 103, &block, &[TxFigures::Nothing], 3).unwrap();
    assert_eq!(state.decisions.get_decision_current_state(id), DecisionState::Resolved);
    let outcome = state.voting().databases().get_consensus_outcome(id);
    assert_eq!(outcome.map(number), Some(0.5));
    assert!(state.get_utxos().get(&spent).is_none());

    disconnect_block(&mut state, 103, Some(102), &block, &[UndoFigures::Nothing]).unwrap();
    assert!(state.is_decision_in_voting(id));
    assert_eq!(state.voting().databases().get_consensus_outcome(id), None);
    assert_eq!(periods_to_resolve(&state, 3).len(), 1);
    assert_eq!(state.reputation().get_reputation(&MINER), reputation);
    assert!(state.get_utxos().get(&spent).is_some());
    assert_eq!(state.try_get_height(), Some(2));
    assert_eq!(state.try_get_tip(), Some(BlockHash([102; 32])));
}

#[test]
fn a_market_is_created_and_its_creation_is_taken_back() {
    let mut state = genesis();
    let id = DecisionId::new(true, 5, 0).unwrap();
    let input = coin(&mut state, 20, MAKER, 10_000);
    let claims = body(vec![], vec![claim(input, id)]);
    connect_block(&mut state, 101, &claims, &[TxFigures::Claim { aligned: true }], 0).unwrap();
    let input = coin(&mut state, 21, MAKER, 60_000);
    let creation = body(vec![pay(MINER, 10_000)], vec![create_market(input, id, 50_000)]);
    connect_block(&mut state, 102, &creation, &[plan()], 0).unwrap();

    let market = state.markets().get_market(&MARKET).unwrap();
    assert_eq!(market.state(), MarketState::Trading);
    assert_eq!(market.shares(), &vec![0, 0]);
    assert_eq!(market.liquidity_base_sats, 50_000);
    assert_eq!(market.terms.title, "Rain");
    assert_eq!(market.terms.creator_address, MAKER);
    assert_eq!(market.terms.tags[..], ["weather".to_string()]);
    assert_eq!(number(market.trading_fee()), 0.01);
    assert!(state.markets().get_market_funds_utxo(&MARKET, false).is_some());

    disconnect_block(&mut state, 102, Some(101), &creation, &[UndoFigures::Creation(MARKET)])
        .unwrap();
    assert!(state.markets().get_market(&MARKET).is_none());
    assert!(state.get_utxos().get(&input).is_some());
    assert!(state.decisions.get_decision_entry(id).is_some());
}

#[test]
fn trades_move_shares_and_sats() {
    let mut state = with_market();
    let input = coin(&mut state, 30, TRADER, 20_000);
    let buy = body(vec![pay(MINER, MINER_FEE)], vec![trade(input, 100, 20_000)]);
    let skipped = connect_block(&mut state, 103, &buy, &[buy_quote(7_000, 70)], 0).unwrap();
    assert!(skipped.is_empty());
    let market = state.markets().get_market(&MARKET).unwrap();
    assert_eq!(market.shares(), &vec![100, 0]);
    assert_eq!(market.volumes, vec![7_070, 0]);
    assert_eq!(state.markets().get_shares(&TRADER, &MARKET, 0), 100);
    assert!(state.markets().verify_share_invariant(&MARKET).is_ok());
    let treasury = state.markets().get_market_funds_utxo(&MARKET, false).unwrap();
    assert_eq!(state.get_utxos().get(&treasury).unwrap().get_bitcoin_value(), 57_000);
    let fees = state.markets().get_market_funds_utxo(&MARKET, true).unwrap();
    assert_eq!(state.get_utxos().get(&fees).unwrap().get_bitcoin_value(), 70);
    let change = state.get_utxos_by_addresses(&vec![TRADER]);
    assert_eq!(change.len(), 1);
    assert_eq!(change.row(0).1.get_bitcoin_value(), 20_000 - 7_070 - MINER_FEE);

    // selling brings some of it back
    let input = coin(&mut state, 31, TRADER, 1_500);
    let sell = body(vec![pay(MINER, MINER_FEE)], vec![trade(input, -40, 2_000)]);
    connect_block(&mut state, 104, &sell, &[sell_quote(2_500, 25)], 0).unwrap();
    assert_eq!(state.markets().get_shares(&TRADER, &MARKET, 0), 60);
    assert_eq!(state.markets().get_market(&MARKET).unwrap().shares(), &vec![60, 0]);
    let treasury = state.markets().get_market_funds_utxo(&MARKET, false).unwrap();
    assert_eq!(state.get_utxos().get(&treasury).unwrap().get_bitcoin_value(), 57_000 - 2_525);

    // and all of it can be taken back
    disconnect_block(&mut state, 104, Some(103), &sell, &[UndoFigures::Trade(Some(2_500))])
        .unwrap();
    disconnect_block(&mut state, 103, Some(102), &buy, &[UndoFigures::Trade(Some(7_070))])
        .unwrap();
    let market = state.markets().get_market(&MARKET).unwrap();
    assert_eq!(market.shares(), &vec![0, 0]);
    assert_eq!(market.volumes, vec![0, 0]);
    assert_eq!(state.markets().get_shares(&TRADER, &MARKET, 0), 0);
    let treasury = state.markets().get_market_funds_utxo(&MARKET, false).unwrap();
    assert_eq!(state.get_utxos().get(&treasury).unwrap().get_bitcoin_value(), 50_000);
    assert_eq!(state.markets().get_market_funds_utxo(&MARKET, true), None);
}

#[test]
fn funds_go_to_the_addresses_of_a_market_that_is_not_stored() {
    let mut state = genesis();
    let buy = PendingBuySettlement {
        market_id: MARKET,
        trader_address: TRADER,
        input_value_sats: 10_000,
        lmsr_cost_sats: 6_000,
        market_fee_sats: 500,
        transaction_id: [7; 32],
        is_amplify: false,
    };
    let mut addresses = Table::new();
    addresses.put(MARKET, FundsAddresses { treasury: TREASURY, author_fee: FEES });
    let undo = consolidate_market_utxos(
        &mut state.ledger,
        &mut state.markets,
        &addresses,
        1,
        MINER_FEE,
        &vec![],
        &vec![buy],
        &vec![],
    )
    .unwrap();
    assert!(undo.is_some());
    for (is_fee, address, sats) in [(false, TREASURY, 6_000), (true, FEES, 500)] {
        let place = state.markets().get_market_funds_utxo(&MARKET, is_fee).unwrap();
        let held = state.get_utxos().get(&place).unwrap();
        assert_eq!((held.address, held.get_bitcoin_value()), (address, sats));
    }
    let utxos = state.get_utxos();
    let change: Vec<u64> = (0..utxos.len())
        .map(|i| &utxos.row(i).1)
        .filter(|output| output.address == TRADER)
        .map(|output| output.get_bitcoin_value())
        .collect();
    assert_eq!(change, vec![2_500]);
}

#[test]
fn a_trade_whose_price_has_moved_is_skipped() {
    let mut state = with_market();
    let input = coin(&mut state, 30, TRADER, 20_000);
    let buy = body(vec![], vec![trade(input, 100, 8_069)]);
    let skipped = connect_block(&mut state, 103, &buy, &[buy_quote(7_000, 70)], 0).unwrap();
    assert_eq!(skipped, vec![0]);
    assert_eq!(state.markets().get_market(&MARKET).unwrap().shares(), &vec![0, 0]);
    assert!(state.get_utxos().get(&input).is_some());
    assert_eq!(state.skipped_tx_indices_undo.get(&3), Some(&vec![0]));
    disconnect_block(&mut state, 103, Some(102), &buy, &[UndoFigures::Trade(None)]).unwrap();
    assert!(state.get_utxos().get(&input).is_some());
    assert!(state.skipped_tx_indices_undo.is_empty());

    // with one sat more it goes through
    let buy = body(vec![], vec![trade(input, 100, 8_070)]);
    let skipped = connect_block(&mut state, 104, &buy, &[buy_quote(7_000, 70)], 0).unwrap();
    assert!(skipped.is_empty());
}

#[test]
fn shares_that_are_not_there_cannot_be_sold() {
    let mut state = with_market();
    let coins: Vec<OutPoint> =
        (0..4).map(|i| coin(&mut state, 30 + i, TRADER, 20_000)).collect();
    // the market has 200 shares, but the trader has no more than 40 left
    let trades = body(
        vec![],
        vec![
            trade_by(MAKER, coins[0], 100, 20_000),
            trade(coins[1], 100, 20_000),
            trade(coins[2], -60, 0),
            trade(coins[3], -60, 0),
        ],
    );
    let figures =
        [buy_quote(7_000, 70), buy_quote(7_000, 70), sell_quote(100, 1), sell_quote(100, 1)];
    assert!(matches!(
        connect_block(&mut state, 103, &trades, &figures, 0),
        Err(Error::InvalidTransaction {
            reason: Reason::InsufficientEffectiveShares {
                selling: 60,
                owned: 0,
                effective: 40,
                outcome: 0,
            }
        })
    ));

    let mut state = with_market();
    let input = coin(&mut state, 30, TRADER, 20_000);
    let sale = body(vec![], vec![trade(input, -1, 0)]);
    assert!(matches!(
        connect_block(&mut state, 103, &sale, &[sell_quote(1, 0)], 0),
        Err(Error::InvalidTransaction {
            reason: Reason::NegativeMarketShares { shares: -1, outcome: 0 }
        })
    ));
}

#[test]
fn a_price_that_could_not_be_worked_out_is_an_error() {
    let mut state = with_market();
    let input = coin(&mut state, 30, TRADER, 20_000);
    let buy = body(vec![], vec![trade(input, 100, 20_000)]);
    let failed = [TxFigures::Trade(TradeQuote::Failed)];
    assert!(matches!(
        connect_block(&mut state, 103, &buy, &failed, 0),
        Err(Error::InvalidTransaction { .. })
    ));
}

#[test]
fn an_author_deepens_a_market() {
    let mut state = with_market();
    let input = coin(&mut state, 30, MAKER, 9_000);
    let tx = Transaction {
        inputs: vec![input].into_boxed_slice(),
        outputs: vec![].into_boxed_slice(),
        memo: vec![].into_boxed_slice(),
        data: Some(TransactionData::AmplifyBeta {
            market_id: MARKET,
            amount: 6_000,
            market_author: MAKER,
        }),
    };
    let amplify = body(vec![pay(MINER, MINER_FEE)], vec![tx]);
    connect_block(&mut state, 103, &amplify, &[TxFigures::Nothing], 0).unwrap();
    assert_eq!(state.markets().get_market(&MARKET).unwrap().liquidity_base_sats, 56_000);
    let treasury = state.markets().get_market_funds_utxo(&MARKET, false).unwrap();
    assert_eq!(state.get_utxos().get(&treasury).unwrap().get_bitcoin_value(), 56_000);
    disconnect_block(&mut state, 103, Some(102), &amplify, &[UndoFigures::Nothing]).unwrap();
    assert_eq!(state.markets().get_market(&MARKET).unwrap().liquidity_base_sats, 50_000);
}

#[test]
fn votes_are_cast_and_taken_back() {
    let mut state = genesis();
    let id = DecisionId::new(true, 1, 0).unwrap();
    let input = coin(&mut state, 20, MINER, 10);
    let vote = Transaction {
        inputs: vec![input].into_boxed_slice(),
        outputs: vec![].into_boxed_slice(),
        memo: vec![].into_boxed_slice(),
        data: Some(TransactionData::SubmitVote {
            voter: MINER,
            decision_id_bytes: id.as_bytes(),
            vote_value: bits_of(1.0),
            voting_period: 2,
        }),
    };
    let votes = body(vec![], vec![vote]);
    connect_block(&mut state, 101, &votes, &[TxFigures::Vote(Some(bits_of(1.0)))], 2).unwrap();
    assert_eq!(state.voting().databases().count_total_votes(), 1);
    let period = VotingPeriodId::new(2);
    let cast = state.voting().get_vote_matrix(period);
    assert_eq!(cast.len(), 1);
    assert_eq!((cast[0].0, cast[0].1, number(cast[0].2)), (MINER, id, 1.0));
    assert_eq!(state.voting().get_participation_stats(period), (vec![MINER], 1));

    disconnect_block(&mut state, 101, Some(100), &votes, &[UndoFigures::Nothing]).unwrap();
    assert_eq!(state.voting().databases().count_total_votes(), 0);
}

#[test]
fn reputation_is_transferred_and_taken_back() {
    let mut state = genesis();
    let input = coin(&mut state, 20, MINER, 10);
    let transfer = Transaction {
        inputs: vec![input].into_boxed_slice(),
        outputs: vec![].into_boxed_slice(),
        memo: vec![].into_boxed_slice(),
        data: Some(TransactionData::TransferReputation {
            sender: MINER,
            dest: TRADER,
            amount: bits_of(0.25),
        }),
    };
    let transfers = body(vec![], vec![transfer]);
    let filled = state.fill_transaction(&transfers.transactions[0]).unwrap();
    let (sender, receiver) = transfer_parties(state.reputation(), &filled).unwrap();
    assert_eq!((number(sender), number(receiver)), (1.0, 0.0));
    let figures = [TxFigures::Transfer(TransferResult {
        sender_left: bits_of(number(sender) - 0.25),
        receiver_total: bits_of(number(receiver) + 0.25),
    })];
    connect_block(&mut state, 101, &transfers, &figures, 0).unwrap();
    assert_eq!(number(state.reputation().get_reputation(&MINER)), 0.75);
    assert_eq!(number(state.reputation().get_reputation(&TRADER)), 0.25);
    disconnect_block(&mut state, 101, Some(100), &transfers, &[UndoFigures::Nothing]).unwrap();
    assert_eq!(number(state.reputation().get_reputation(&MINER)), 1.0);
    assert_eq!(number(state.reputation().get_reputation(&TRADER)), 0.0);
    assert_eq!(state.reputation().count_holders(), 1);
}

#[test]
fn a_block_of_claims_votes_and_transfers_is_undone() {
    let mut state = genesis();
    let first = DecisionId::new(true, 1, 0).unwrap();
    let second = DecisionId::new(true, 1, 1).unwrap();
    let input = coin(&mut state, 20, MAKER, 10);
    let claims = body(vec![], vec![claim(input, first)]);
    connect_block(&mut state, 101, &claims, &[TxFigures::Claim { aligned: true }], 0).unwrap();

    let inputs: Vec<OutPoint> =
        (21..24).map(|seed| coin(&mut state, seed, MINER, 10)).collect();
    let with_data = |input: OutPoint, data: TransactionData| Transaction {
        inputs: vec![input].into_boxed_slice(),
        data: Some(data),
        ..Default::default()
    };
    let vote = with_data(
        inputs[1],
        TransactionData::SubmitVote {
            voter: MINER,
            decision_id_bytes: first.as_bytes(),
            vote_value: bits_of(1.0),
            voting_period: 2,
        },
    );
    let transfer = with_data(
        inputs[2],
        TransactionData::TransferReputation {
            sender: MINER,
            dest: TRADER,
            amount: bits_of(0.25),
        },
    );
    let block = body(vec![], vec![claim(inputs[0], second), vote, transfer]);
    let figures = [
        TxFigures::Claim { aligned: true },
        TxFigures::Vote(Some(bits_of(1.0))),
        TxFigures::Transfer(TransferResult {
            sender_left: bits_of(0.75),
            receiver_total: bits_of(0.25),
        }),
    ];
    let before = state.duplicate();
    connect_block(&mut state, 102, &block, &figures, 1).unwrap();
    assert!(state.decisions.get_decision_entry(second).is_some());
    assert_eq!(state.voting().databases().count_total_votes(), 1);
    assert_eq!(number(state.reputation().get_reputation(&TRADER)), 0.25);

    disconnect_block(&mut state, 102, Some(101), &block, &[UndoFigures::Nothing; 3]).unwrap();
    assert_eq!(state.try_get_height(), before.try_get_height());
    assert_eq!(state.try_get_tip(), before.try_get_tip());
    assert!(state.decisions.get_decision_entry(first).is_some());
    assert!(state.decisions.get_decision_entry(second).is_none());
    assert_eq!(state.decisions.get_decision_current_state(second), DecisionState::Created);
    assert_eq!(state.voting().databases().count_total_votes(), 0);
    assert_eq!(number(state.reputation().get_reputation(&MINER)), 1.0);
    assert_eq!(number(state.reputation().get_reputation(&TRADER)), 0.0);
    assert_eq!(state.get_utxos().len(), before.get_utxos().len());
    for input in &inputs {
        assert_eq!(state.get_utxos().get(input), before.get_utxos().get(input));
        assert!(state.stxos().get(input).is_none());
    }
}

#[test]
fn a_copy_says_the_same_and_stays() {
    let mut state = with_market();
    let kept = state.duplicate();
    let place = coin(&mut state, 77, MAKER, 5);
    assert_eq!(state.get_utxos().len(), kept.get_utxos().len() + 1);
    assert!(kept.get_utxos().get(&place).is_none());
    assert_eq!(kept.try_get_tip(), state.try_get_tip());
    let terms = |state: &State| {
        let market = state.markets().get_market(&MARKET).unwrap();
        (market.terms.title.clone(), market.terms.tags.clone(), market.shares.clone())
    };
    assert_eq!(terms(&kept), terms(&state));
    assert_eq!(
        number(kept.reputation().get_reputation(&MINER)),
        number(state.reputation().get_reputation(&MINER))
    );
}

#[test]
fn only_the_tip_is_disconnected() {
    let mut state = genesis();
    let tip = header(100, None);
    assert!(matches!(
        disconnect_tip(&mut state, &tip, BlockHash([7; 32]), tip.merkle_root),
        Err(Error::InvalidHeader(_))
    ));
    assert!(matches!(
        disconnect_tip(&mut state, &tip, BlockHash([100; 32]), MerkleRoot([7; 32])),
        Err(Error::InvalidBody { .. })
    ));
    let mut empty = State::new(None, 0).unwrap();
    assert!(matches!(
        disconnect_tip(&mut empty, &tip, BlockHash([100; 32]), tip.merkle_root),
        Err(Error::NoTip)
    ));
}

#[test]
fn coins_spent_by_another_transaction_are_not_given_back() {
    let mut state = genesis();
    let input = coin(&mut state, 20, MAKER, 10);
    let spend = |memo: u8| Transaction {
        inputs: vec![input].into_boxed_slice(),
        outputs: vec![pay(TRADER, 10)].into_boxed_slice(),
        memo: vec![memo].into_boxed_slice(),
        data: None,
    };
    let spending = body(vec![], vec![spend(1)]);
    connect_block(&mut state, 101, &spending, &[TxFigures::Nothing], 0).unwrap();
    assert!(revert_own_transaction(&mut state, &spend(2), &UndoFigures::Nothing, 1).is_none());
    assert!(state.ledger.find_spent_outputs(spend(2)).is_none());
    let found = state.ledger.find_spent_outputs(spend(1)).unwrap().unwrap();
    assert_eq!(found.spent_utxos[0].get_bitcoin_value(), 10);
    assert!(matches!(
        state.ledger.find_spent_outputs(claim(
            OutPoint::Regular { txid: Txid([77; 32]), vout: 0 },
            DecisionId([0; 3])
        )),
        Some(Err(Error::NoStxo { .. }))
    ));
}

#[test]
fn a_state_is_not_set_up_with_empty_periods() {
    assert!(matches!(State::new(Some(0), 0), Err(Error::InvalidTransaction { .. })));
    assert!(State::new(Some(1), 0).unwrap().decisions().is_testing_mode());
    assert!(!State::new(None, 0).unwrap().decisions().is_testing_mode());
}

#[test]
fn the_tags_of_a_market_are_sorted_and_stand_once() {
    let with_tags = |tags: &[&str]| Decision {
        market_maker_pubkey_hash: [0; 20],
        decision_type: DecisionType::Binary,
        header: String::new(),
        description: String::new(),
        option_0_label: None,
        option_1_label: None,
        tags: tags.iter().map(|tag| tag.to_string()).collect::<Vec<_>>().into_boxed_slice(),
    };
    let decisions = vec![with_tags(&["sport", "art"]), with_tags(&["news", "art"])];
    assert_eq!(compute_market_tags(&decisions), ["art", "news", "sport"]);
}

fn lmsr_cost(shares: &[i64], beta: f64) -> f64 {
    let greatest = shares.iter().copied().max().unwrap() as f64 / beta;
    let sum: f64 = shares.iter().map(|q| (*q as f64 / beta - greatest).exp()).sum();
    beta * (greatest + sum.ln())
}

#[test]
fn same_block_buys_fold_shares_not_beta() {
    let outcomes = 2usize;
    let liquidity_base = (10_000_000.0 * (outcomes as f64).ln()).round() as u64;
    let beta = liquidity_base as f64 / (outcomes as f64).ln();

    let s0 = vec![0i64, 0i64];
    let after_one = vec![100_000i64, 0i64];
    let after_two = vec![200_000i64, 0i64];

    let state = with_market();
    let mut state_update = StateUpdate::new();
    state_update.add_market_update(MarketStateUpdate {
        market_id: MARKET,
        share_delta: Some((0, 100_000)),
        transaction_id: None,
        volume_sats: None,
        fee_sats: None,
    });
    state_update.add_pending_buy_settlement(PendingBuySettlement {
        market_id: MARKET,
        trader_address: Address([0; 20]),
        input_value_sats: 0,
        lmsr_cost_sats: 12_345,
        market_fee_sats: 0,
        transaction_id: [0u8; 32],
        is_amplify: false,
    });

    let (effective, base) =
        running_market_state(&MARKET, state.markets(), &state_update).unwrap();
    assert_eq!(effective, after_one);
    assert_eq!(base, 50_000);

    let base1 = (lmsr_cost(&after_one, beta) - lmsr_cost(&s0, beta)).ceil() as u64;
    let base2_sequential =
        (lmsr_cost(&after_two, beta) - lmsr_cost(&effective, beta)).ceil() as u64;

    assert!(base2_sequential > base1);
}

#[test]
fn fees_must_cover_the_coinbase() {
    let mut state = genesis();
    let input = coin(&mut state, 20, MAKER, 10);
    let tx = Transaction {
        inputs: vec![input].into_boxed_slice(),
        outputs: vec![pay(TRADER, 8)].into_boxed_slice(),
        memo: vec![].into_boxed_slice(),
        data: None,
    };
    let greedy = body(vec![pay(MINER, 3)], vec![tx]);
    assert!(matches!(
        connect_block(&mut state, 101, &greedy, &[TxFigures::Nothing], 0),
        Err(Error::NotEnoughFees)
    ));
}

#[test]
fn a_filled_transaction_names_its_coins() {
    let mut state = genesis();
    let input = coin(&mut state, 20, MAKER, 10);
    let missing = OutPoint::Regular { txid: Txid([99; 32]), vout: 0 };
    let tx = |inputs: Vec<OutPoint>| Transaction {
        inputs: inputs.into_boxed_slice(),
        ..Default::default()
    };
    let filled: FilledTransaction = state.fill_transaction(&tx(vec![input])).unwrap();
    assert_eq!(filled.spent_utxos[0].address, MAKER);
    assert!(matches!(
        state.fill_transaction(&tx(vec![input, missing])),
        Err(Error::NoUtxo { outpoint }) if outpoint == missing
    ));
}
