//! Connecting a block.
//!
//! A block is connected step by step, so that prices, scales and tallies can be
//! worked out in between:
//!
//! 1. [`connect_prevalidated`] opens the block;
//! 2. [`apply_transaction`] takes the transactions, one after the other;
//! 3. [`finish_transactions`] writes down what they add up to;
//! 4. [`open_pricing`] lists the periods whose price is to be worked out anew;
//! 5. [`periods_to_resolve`] lists the periods whose votes are to be reckoned;
//! 6. [`close_block`] makes the block the tip.

use vstd::prelude::*;

use crate::state::block::claims::{apply_decision_claim, decision_claim_applied};
use crate::state::block::coins::{apply_utxo_changes, coins_moved};
use crate::state::block::creation::{
    apply_market_creation, is_new_market, market_prepared, treasury_output, MarketPlan,
};
use crate::state::block::trades::{
    amplify_applied, apply_amplify_beta, apply_trade, trade_applied, TradeApplyResult, TradeQuote,
};
use crate::state::block::votes::{
    apply_submit_ballot, apply_submit_vote, apply_transfer_reputation, ballot_applied,
    transfer_applied, vote_applied, ReputationTransferUndoEntry, TransferResult,
};
use crate::state::consolidation::{covers, FundsAddresses};
use crate::state::decisions::Dbs;
use crate::state::decisions::database::{
    genesis_pricing, highest_or_zero, minted, periods_opened, snapshot_of, to_reprice,
    transition_list, DecisionsView,
};
use crate::state::decisions::pricing::PeriodPricing;
use crate::state::decisions::types::{current_of, DecisionId, DecisionState, FUTURE_PERIODS};
use crate::state::ledger::{Ledger, LedgerView, UtxoManager};
use crate::state::markets::database::{funds, MarketsView};
use crate::state::markets::MarketId;
use crate::state::reputation::{with_reputation, Reputations};
use crate::state::undo::SettlementUndoEntry;
use crate::state::update::{all_written, update_problem, StateUpdate, StateUpdateView, Written};
use crate::state::voting::system::{full, ConsensusUndoEntry};
use crate::state::{Error, Reason, State};
use crate::table::{rows_of, Table};
use crate::types::block::{Body, Header};
use crate::types::encoding::Encode;
use crate::types::transaction::output::TxOutput;
use crate::types::transaction::{FilledTransaction, OutPoint, TransactionData};
use crate::types::{BlockHash, MerkleRoot, Real};
use crate::validation::block::{coinbase_is_plain, fees_problem, is_skipped, BlockValidator};

verus! {

/// What was worked out while a block was checked.
#[derive(Debug)]
pub struct PrevalidatedBlock {
    pub filled_transactions: Vec<FilledTransaction>,
    pub computed_merkle_root: MerkleRoot,
    pub coinbase_value: u64,
    pub next_height: u32,
}

/// A claimed decision is put to the vote.
pub open spec fn put_to_vote(view: DecisionsView, id: DecisionId, height: u32) -> Result<
    DecisionsView,
    Error,
> {
    if !view.histories.dom().contains(id) {
        Err(Error::InvalidDecisionId { reason: Reason::NoStateHistory(id) })
    } else if !current_of(view.histories[id]).may_become(DecisionState::Voting) {
        Err(
            Error::InvalidDecisionState {
                reason: Reason::CannotStartVoting(current_of(view.histories[id])),
            },
        )
    } else {
        Ok(
            DecisionsView {
                histories: view.histories.insert(
                    id,
                    view.histories[id].push((DecisionState::Voting, height, None)),
                ),
                ..view
            },
        )
    }
}

pub open spec fn all_put_to_vote(view: DecisionsView, ids: Seq<DecisionId>, height: u32) -> Result<
    DecisionsView,
    Error,
>
    decreases ids.len(),
{
    if ids.len() == 0 {
        Ok(view)
    } else {
        match all_put_to_vote(view, ids.drop_last(), height) {
            Err(e) => Err(e),
            Ok(before) => put_to_vote(before, ids.last(), height),
        }
    }
}

/// The place of an output of a coinbase.
pub open spec fn coinbase_point(merkle_root: MerkleRoot, vout: int) -> OutPoint {
    OutPoint::Coinbase { merkle_root, vout: vout as u32 }
}

/// The ledger with the outputs of a coinbase.
pub open spec fn coinbase_made(ledger: LedgerView, merkle_root: MerkleRoot, coinbase: Seq<TxOutput>)
    -> LedgerView
    decreases coinbase.len(),
{
    if coinbase.len() == 0 {
        ledger
    } else {
        coinbase_made(ledger, merkle_root, coinbase.drop_last()).insert(
            coinbase_point(merkle_root, coinbase.len() - 1),
            coinbase.last().filled(),
        )
    }
}

/// The parts of the state that opening a block changes.
#[verifier::ext_equal]
pub struct Opened {
    pub genesis_timestamp: Option<u64>,
    pub reputation: Reputations,
    pub decisions: DecisionsView,
    pub minting_undo: Map<u32, u32>,
    pub ledger: LedgerView,
}

pub open spec fn opened_parts(state: State) -> Opened {
    Opened {
        genesis_timestamp: state.genesis_timestamp,
        reputation: state.reputation@,
        decisions: state.decisions@,
        minting_undo: state.minting_undo@,
        ledger: state.ledger@,
    }
}

/// A block is opened. The first block sets the time from which periods are
/// counted, and its miner starts with all reputation. What undoes pricing and
/// new periods is recorded, decisions whose period is over are put to the
/// vote, and the miner is paid.
pub open spec fn block_opened(
    at: Opened,
    header: Header,
    coinbase: Seq<TxOutput>,
    mainchain_timestamp: u64,
    current_period: u32,
    height: u32,
) -> Result<Opened, Error> {
    let decisions = DecisionsView {
        pricing_undo: at.decisions.pricing_undo.insert(height, snapshot_of(at.decisions.pricing)),
        ..at.decisions
    };
    let due = transition_list(
        rows_of(decisions.histories),
        DecisionState::Claimed,
        0,
        current_period,
    );
    match all_put_to_vote(decisions, due, height) {
        Err(e) => Err(e),
        Ok(decisions) => if !coinbase_is_plain(coinbase) {
            Err(Error::BadCoinbaseOutputContent)
        } else {
            Ok(
                Opened {
                    genesis_timestamp: if height == 0 {
                        Some(mainchain_timestamp)
                    } else {
                        at.genesis_timestamp
                    },
                    reputation: if height == 0 && coinbase.len() > 0 {
                        with_reputation(at.reputation, coinbase[0].address, full())
                    } else {
                        at.reputation
                    },
                    decisions,
                    minting_undo: at.minting_undo.insert(
                        height,
                        highest_or_zero(at.decisions.periods),
                    ),
                    ledger: coinbase_made(at.ledger, header.merkle_root, coinbase),
                },
            )
        },
    }
}

proof fn lemma_vote_prefix(view: DecisionsView, ids: Seq<DecisionId>, height: u32, n: int)
    requires
        0 <= n <= ids.len(),
        all_put_to_vote(view, ids.subrange(0, n), height) is Err,
    ensures
        all_put_to_vote(view, ids, height) == all_put_to_vote(view, ids.subrange(0, n), height),
    decreases ids.len() - n,
{
    if n == ids.len() {
        assert(ids.subrange(0, n) =~= ids);
    } else {
        assert(ids.subrange(0, n + 1).drop_last() =~= ids.subrange(0, n));
        lemma_vote_prefix(view, ids, height, n + 1);
    }
}

fn start_voting(
    decisions: &mut Dbs,
    current_period: u32,
    height: u32,
) -> (r: Result<(), Error>)
    ensures
        ({
            let due = transition_list(
                rows_of(old(decisions)@.histories),
                DecisionState::Claimed,
                0,
                current_period,
            );
            match r {
                Ok(()) => all_put_to_vote(old(decisions)@, due, height) == Ok::<
                    DecisionsView,
                    Error,
                >(final(decisions)@),
                Err(e) => all_put_to_vote(old(decisions)@, due, height) == Err::<
                    DecisionsView,
                    Error,
                >(e),
            }
        }),
{
    let ids = decisions.get_claimed_decisions_needing_voting(current_period);
    let mut i: usize = 0;
    assert(ids@.subrange(0, 0) =~= Seq::empty());
    while i < ids.len()
        invariant
            i <= ids@.len(),
            ids@ == transition_list(
                rows_of(old(decisions)@.histories),
                DecisionState::Claimed,
                0,
                current_period,
            ),
            all_put_to_vote(old(decisions)@, ids@.subrange(0, i as int), height) == Ok::<
                DecisionsView,
                Error,
            >(decisions@),
        decreases ids@.len() - i,
    {
        proof {
            assert(ids@.subrange(0, i + 1).drop_last() =~= ids@.subrange(0, i as int));
        }
        match decisions.transition_decision_to_voting(ids[i], height) {
            Err(e) => {
                proof {
                    lemma_vote_prefix(old(decisions)@, ids@, height, i + 1);
                }
                return Err(e);
            },
            Ok(()) => {},
        }
        i += 1;
    }
    assert(ids@.subrange(0, i as int) =~= ids@);
    Ok(())
}

fn make_coinbase(ledger: &mut Ledger, merkle_root: MerkleRoot, coinbase: &Vec<TxOutput>)
    requires
        coinbase@.len() <= u32::MAX,
    ensures
        final(ledger)@ == coinbase_made(old(ledger)@, merkle_root, coinbase@),
{
    let mut i: usize = 0;
    assert(coinbase@.subrange(0, 0) =~= Seq::empty());
    while i < coinbase.len()
        invariant
            i <= coinbase@.len() <= u32::MAX,
            ledger@ == coinbase_made(old(ledger)@, merkle_root, coinbase@.subrange(0, i as int)),
        decreases coinbase@.len() - i,
    {
        assert(coinbase@.subrange(0, i + 1).drop_last() =~= coinbase@.subrange(0, i as int));
        let output = coinbase[i].to_filled();
        ledger.insert_utxo(&(OutPoint::Coinbase { merkle_root, vout: i as u32 }), &output);
        i += 1;
    }
    assert(coinbase@.subrange(0, i as int) =~= coinbase@);
}

/// Opens a block that was found valid. `current_period` is the period of the
/// block.
pub fn connect_prevalidated(
    state: &mut State,
    header: &Header,
    body: &Body,
    mainchain_timestamp: u64,
    current_period: u32,
    prevalidated: &PrevalidatedBlock,
) -> (r: Result<(), Error>)
    requires
        body.coinbase@.len() <= u32::MAX,
    ensures
        match r {
            Ok(()) => {
                &&& block_opened(
                    opened_parts(*old(state)),
                    *header,
                    body.coinbase@,
                    mainchain_timestamp,
                    current_period,
                    prevalidated.next_height,
                ) == Ok::<Opened, Error>(opened_parts(*final(state)))
                &&& *final(state) == (State {
                    genesis_timestamp: final(state).genesis_timestamp,
                    reputation: final(state).reputation,
                    decisions: final(state).decisions,
                    minting_undo: final(state).minting_undo,
                    ledger: final(state).ledger,
                    ..*old(state)
                })
            },
            Err(e) => block_opened(
                opened_parts(*old(state)),
                *header,
                body.coinbase@,
                mainchain_timestamp,
                current_period,
                prevalidated.next_height,
            ) == Err::<Opened, Error>(e),
        },
{
    let height: u32 = prevalidated.next_height;
    if height == 0 {
        state.genesis_timestamp = Some(mainchain_timestamp);
        if body.coinbase.len() > 0 {
            state.reputation.set_reputation(
                &body.coinbase[0].address,
                Real { bits: 0x3ff0_0000_0000_0000 },
            );
        }
    }
    let highest: u32 = match state.decisions.get_highest_minted_period() {
        Some(highest) => highest,
        None => 0,
    };
    state.decisions.snapshot_period_pricing(height);
    state.minting_undo.put(height, highest);
    match start_voting(&mut state.decisions, current_period, height) {
        Err(e) => return Err(e),
        Ok(()) => {},
    }
    match BlockValidator::validate_coinbase_outputs(&body.coinbase, height) {
        Err(e) => return Err(e),
        Ok(()) => {},
    }
    make_coinbase(&mut state.ledger, header.merkle_root, &body.coinbase);
    Ok(())
}

/// What is worked out elsewhere for a transaction.
#[allow(inconsistent_fields)]
#[derive(Debug)]
pub enum TxFigures {
    /// For a transaction that needs nothing.
    Nothing,
    /// What a trade costs or brings.
    Trade(TradeQuote),
    /// Whether the range of a scaled decision is a whole number of increments.
    Claim { aligned: bool },
    /// The same for each new claim of a market, and the plan of the market.
    Creation { aligned: Vec<bool>, plan: Option<MarketPlan> },
    /// A vote on the scale of its decision.
    Vote(Option<Real>),
    /// The votes of a ballot on the scales of their decisions.
    Ballot(Vec<Option<Real>>),
    /// What the parties to a transfer have afterwards.
    Transfer(TransferResult),
}

/// The figures are those that a transaction needs.
pub open spec fn figures_fit(data: Option<TransactionData>, figures: TxFigures) -> bool {
    match data {
        Some(TransactionData::Trade { .. }) => figures is Trade,
        Some(TransactionData::ClaimDecision(_)) => figures is Claim,
        Some(TransactionData::CreateMarket { .. }) => figures is Creation,
        Some(TransactionData::SubmitVote { .. }) => figures is Vote,
        Some(TransactionData::SubmitBallot { .. }) => figures is Ballot,
        Some(TransactionData::TransferReputation { .. }) => figures is Transfer,
        _ => true,
    }
}

/// The parts of the state that a transaction changes at once, and the update.
#[verifier::ext_equal]
pub struct Applying {
    pub decisions: DecisionsView,
    pub markets: MarketsView,
    pub reputation: Reputations,
    pub transfers: Map<u32, Seq<ReputationTransferUndoEntry>>,
    pub update: StateUpdateView,
}

pub open spec fn transfers_view(m: Map<u32, Vec<ReputationTransferUndoEntry>>) -> Map<
    u32,
    Seq<ReputationTransferUndoEntry>,
> {
    m.map_values(|v: Vec<ReputationTransferUndoEntry>| v@)
}

pub open spec fn applying_parts(state: State, update: StateUpdate) -> Applying {
    Applying {
        decisions: state.decisions@,
        markets: state.markets@,
        reputation: state.reputation@,
        transfers: transfers_view(state.reputation_transfer_undo@),
        update: update@,
    }
}

/// The transfers at a height.
pub open spec fn transfers_at(m: Map<u32, Seq<ReputationTransferUndoEntry>>, height: u32) -> Seq<
    ReputationTransferUndoEntry,
> {
    if m.dom().contains(height) {
        m[height]
    } else {
        Seq::empty()
    }
}

/// A transaction that creates a market makes `after` out of `before`.
pub open spec fn creation_applied(
    before: Applying,
    after: Applying,
    tx: FilledTransaction,
    height: u32,
    aligned: Seq<bool>,
    plan: Option<MarketPlan>,
    r: Result<bool, Error>,
) -> bool {
    match market_prepared(before.decisions, tx, height, aligned) {
        Err(e) => r == Err::<bool, Error>(e),
        Ok((decisions, creator, named)) => match plan {
            None => r == Err::<bool, Error>(
                Error::InvalidTransaction { reason: Reason::Text("Market creation failed") },
            ),
            Some(plan) => {
                let market = after.update.creations.last();
                &&& r == Ok::<bool, Error>(false)
                &&& after.update.creations.len() == before.update.creations.len() + 1
                &&& after == (Applying {
                    decisions,
                    markets: MarketsView {
                        funds: match treasury_output(tx.transaction.outputs@, plan.id) {
                            Some(i) => before.markets.funds.insert(
                                funds(plan.id, false),
                                OutPoint::Regular { txid: tx.transaction.id(), vout: i as u32 },
                            ),
                            None => before.markets.funds,
                        },
                        ..before.markets
                    },
                    update: StateUpdateView {
                        creations: before.update.creations.push(market),
                        ..before.update
                    },
                    ..before
                })
                &&& is_new_market(market, tx, creator, plan, named, height)
            },
        },
    }
}

/// A transaction makes `after` out of `before`. The result is an error, or
/// whether the transaction is skipped.
pub open spec fn tx_applied(
    before: Applying,
    after: Applying,
    tx: FilledTransaction,
    figures: TxFigures,
    timestamp: Option<u64>,
    height: u32,
    miner_fee: u64,
    r: Result<bool, Error>,
) -> bool {
    match tx.transaction.data {
        None => r == Ok::<bool, Error>(false) && after == before,
        Some(TransactionData::Trade { .. }) => match trade_applied(
            before.markets,
            before.update,
            tx,
            figures->Trade_0,
            miner_fee,
        ) {
            Err(e) => r == Err::<bool, Error>(e),
            Ok(None) => r == Ok::<bool, Error>(true) && after == before,
            Ok(Some(update)) => r == Ok::<bool, Error>(false) && after == (Applying {
                update,
                ..before
            }),
        },
        Some(TransactionData::ClaimDecision(_)) => match decision_claim_applied(
            before.decisions,
            tx,
            height,
            figures->Claim_aligned,
        ) {
            Err(e) => r == Err::<bool, Error>(e),
            Ok(decisions) => r == Ok::<bool, Error>(false) && after == (Applying {
                decisions,
                ..before
            }),
        },
        Some(TransactionData::CreateMarket { .. }) => creation_applied(
            before,
            after,
            tx,
            height,
            figures->Creation_aligned@,
            figures->Creation_plan,
            r,
        ),
        Some(TransactionData::SubmitVote { .. }) => match vote_applied(
            before.update,
            tx,
            timestamp,
            height,
            figures->Vote_0,
        ) {
            Err(e) => r == Err::<bool, Error>(e),
            Ok(update) => r == Ok::<bool, Error>(false) && after == (Applying {
                update,
                ..before
            }),
        },
        Some(TransactionData::SubmitBallot { .. }) => match ballot_applied(
            before.update,
            tx,
            timestamp,
            height,
            figures->Ballot_0@,
        ) {
            Err(e) => r == Err::<bool, Error>(e),
            Ok(update) => r == Ok::<bool, Error>(false) && after == (Applying {
                update,
                ..before
            }),
        },
        Some(TransactionData::TransferReputation { .. }) => match transfer_applied(
            before.reputation,
            tx,
            figures->Transfer_0,
        ) {
            Err(e) => r == Err::<bool, Error>(e),
            Ok((reputation, entry)) => r == Ok::<bool, Error>(false) && after == (Applying {
                reputation,
                transfers: before.transfers.insert(
                    height,
                    transfers_at(before.transfers, height).push(entry),
                ),
                ..before
            }),
        },
        Some(TransactionData::AmplifyBeta { .. }) => match amplify_applied(before.update, tx) {
            Err(e) => r == Err::<bool, Error>(e),
            Ok(update) => r == Ok::<bool, Error>(false) && after == (Applying {
                update,
                ..before
            }),
        },
    }
}

fn transfer_reputation(
    state: &mut State,
    filled_tx: &FilledTransaction,
    result: &TransferResult,
    height: u32,
) -> (r: Result<(), Error>)
    ensures
        *final(state) == (State {
            reputation: final(state).reputation,
            reputation_transfer_undo: final(state).reputation_transfer_undo,
            ..*old(state)
        }),
        match transfer_applied(old(state).reputation@, *filled_tx, *result) {
            Err(e) => r == Err::<(), Error>(e),
            Ok((reputation, entry)) => {
                let before = transfers_view(old(state).reputation_transfer_undo@);
                &&& r is Ok
                &&& final(state).reputation@ == reputation
                &&& transfers_view(final(state).reputation_transfer_undo@) == before.insert(
                    height,
                    transfers_at(before, height).push(entry),
                )
            },
        },
{
    let entry = match apply_transfer_reputation(&mut state.reputation, filled_tx, result) {
        Err(e) => return Err(e),
        Ok(entry) => entry,
    };
    let ghost m = state.reputation_transfer_undo@;
    let mut entries: Vec<ReputationTransferUndoEntry> = match state.reputation_transfer_undo.take(
        &height,
    ) {
        Some(entries) => entries,
        None => Vec::new(),
    };
    assert(entries@ =~= transfers_at(transfers_view(m), height));
    entries.push(entry);
    state.reputation_transfer_undo.put(height, entries);
    assert(transfers_view(m.remove(height).insert(height, entries)) =~= transfers_view(m).insert(
        height,
        entries@,
    ));
    Ok(())
}

/// Lets a transaction take effect: some at once, and some in the update. Says
/// whether the transaction is skipped, which happens to a trade whose price has
/// moved too far. `miner_fee` is what the miner gets for a trade.
pub fn apply_transaction(
    state: &mut State,
    filled_tx: &FilledTransaction,
    state_update: &mut StateUpdate,
    figures: &TxFigures,
    height: u32,
    miner_fee: u64,
) -> (r: Result<bool, Error>)
    requires
        filled_tx.transaction.encodable(),
        figures_fit(filled_tx.transaction.data, *figures),
    ensures
        tx_applied(
            applying_parts(*old(state), *old(state_update)),
            applying_parts(*final(state), *final(state_update)),
            *filled_tx,
            *figures,
            old(state).mainchain_timestamp,
            height,
            miner_fee,
            r,
        ),
        *final(state) == (State {
            decisions: final(state).decisions,
            markets: final(state).markets,
            reputation: final(state).reputation,
            reputation_transfer_undo: final(state).reputation_transfer_undo,
            ..*old(state)
        }),
{
    let timestamp = state.mainchain_timestamp;
    match (&filled_tx.transaction.data, figures) {
        (Some(TransactionData::Trade { .. }), TxFigures::Trade(quote)) => {
            match apply_trade(&state.markets, filled_tx, state_update, quote, miner_fee) {
                Err(e) => Err(e),
                Ok(TradeApplyResult::Applied) => Ok(false),
                Ok(TradeApplyResult::Skipped { reason: _ }) => Ok(true),
            }
        },
        (Some(TransactionData::ClaimDecision(_)), TxFigures::Claim { aligned }) => {
            match apply_decision_claim(&mut state.decisions, filled_tx, height, *aligned) {
                Err(e) => Err(e),
                Ok(()) => Ok(false),
            }
        },
        (Some(TransactionData::CreateMarket { .. }), TxFigures::Creation { aligned, plan }) => {
            match apply_market_creation(
                &mut state.decisions,
                &mut state.markets,
                filled_tx,
                state_update,
                height,
                aligned,
                plan,
            ) {
                Err(e) => Err(e),
                Ok(()) => Ok(false),
            }
        },
        (Some(TransactionData::SubmitVote { .. }), TxFigures::Vote(value)) => {
            match apply_submit_vote(filled_tx, state_update, timestamp, height, *value) {
                Err(e) => Err(e),
                Ok(()) => Ok(false),
            }
        },
        (Some(TransactionData::SubmitBallot { .. }), TxFigures::Ballot(values)) => {
            match apply_submit_ballot(filled_tx, state_update, timestamp, height, values) {
                Err(e) => Err(e),
                Ok(()) => Ok(false),
            }
        },
        (Some(TransactionData::TransferReputation { .. }), TxFigures::Transfer(result)) => {
            match transfer_reputation(state, filled_tx, result, height) {
                Err(e) => Err(e),
                Ok(()) => Ok(false),
            }
        },
        (Some(TransactionData::AmplifyBeta { .. }), _) => {
            match apply_amplify_beta(filled_tx, state_update) {
                Err(e) => Err(e),
                Ok(()) => Ok(false),
            }
        },
        _ => Ok(false),
    }
}

/// The coins of the transactions that are not skipped are moved.
pub open spec fn all_coins_moved(
    ledger: LedgerView,
    txs: Seq<FilledTransaction>,
    skipped: Seq<u32>,
) -> Result<LedgerView, Error>
    decreases txs.len(),
{
    if txs.len() == 0 {
        Ok(ledger)
    } else {
        match all_coins_moved(ledger, txs.drop_last(), skipped) {
            Err(e) => Err(e),
            Ok(before) => if skipped.contains((txs.len() - 1) as u32) {
                Ok(before)
            } else {
                coins_moved(before, txs.last())
            },
        }
    }
}

proof fn lemma_coins_prefix(
    ledger: LedgerView,
    txs: Seq<FilledTransaction>,
    skipped: Seq<u32>,
    n: int,
)
    requires
        0 <= n <= txs.len(),
        all_coins_moved(ledger, txs.subrange(0, n), skipped) is Err,
    ensures
        all_coins_moved(ledger, txs, skipped) == all_coins_moved(
            ledger,
            txs.subrange(0, n),
            skipped,
        ),
    decreases txs.len() - n,
{
    if n == txs.len() {
        assert(txs.subrange(0, n) =~= txs);
    } else {
        assert(txs.subrange(0, n + 1).drop_last() =~= txs.subrange(0, n));
        lemma_coins_prefix(ledger, txs, skipped, n + 1);
    }
}

/// The transactions can be encoded, and what they spend adds up.
pub open spec fn txs_fit(txs: Seq<FilledTransaction>) -> bool {
    &&& txs.len() <= u32::MAX
    &&& forall|i: int|
        0 <= i < txs.len() ==> (#[trigger] txs[i]).transaction.encodable() && txs[i].spends_fit()
}

fn move_all_coins(ledger: &mut Ledger, txs: &Vec<FilledTransaction>, skipped: &Vec<u32>) -> (r:
    Result<(), Error>)
    requires
        txs_fit(txs@),
    ensures
        match r {
            Ok(()) => all_coins_moved(old(ledger)@, txs@, skipped@) == Ok::<LedgerView, Error>(
                final(ledger)@,
            ),
            Err(e) => all_coins_moved(old(ledger)@, txs@, skipped@) == Err::<LedgerView, Error>(e),
        },
{
    let mut i: usize = 0;
    assert(txs@.subrange(0, 0) =~= Seq::empty());
    while i < txs.len()
        invariant
            i <= txs@.len(),
            txs_fit(txs@),
            all_coins_moved(old(ledger)@, txs@.subrange(0, i as int), skipped@) == Ok::<
                LedgerView,
                Error,
            >(ledger@),
        decreases txs@.len() - i,
    {
        proof {
            assert(txs@.subrange(0, i + 1).drop_last() =~= txs@.subrange(0, i as int));
        }
        if !is_skipped(skipped, i as u32) {
            match apply_utxo_changes(ledger, &txs[i]) {
                Err(e) => {
                    proof {
                        lemma_coins_prefix(old(ledger)@, txs@, skipped@, i + 1);
                    }
                    return Err(e);
                },
                Ok(()) => {},
            }
        }
        i += 1;
    }
    assert(txs@.subrange(0, i as int) =~= txs@);
    Ok(())
}

/// The transactions of a block are written down: the update is checked, then
/// the fees, then coins are moved, and the update takes effect.
pub open spec fn transactions_written(
    state: State,
    update: StateUpdateView,
    addresses: Map<MarketId, FundsAddresses>,
    coinbase_value: u64,
    txs: Seq<FilledTransaction>,
    skipped: Seq<u32>,
    height: u32,
    miner_fee: u64,
) -> Result<Written, Error> {
    match update_problem(state.markets@.markets, update) {
        Some(e) => Err(e),
        None => match fees_problem(coinbase_value, txs, skipped, miner_fee) {
            Some(e) => Err(e),
            None => match all_coins_moved(state.ledger@, txs, skipped) {
                Err(e) => Err(e),
                Ok(ledger) => all_written(
                    ledger,
                    state.markets@,
                    state.voting@,
                    update,
                    addresses,
                    height,
                    miner_fee,
                ),
            },
        },
    }
}

/// Writes down what the transactions of a block add up to. `skipped` are the
/// indices of those that are skipped, and `addresses` says where the funds of the
/// traded markets are held.
pub fn finish_transactions(
    state: &mut State,
    state_update: StateUpdate,
    prevalidated: &PrevalidatedBlock,
    skipped: &Vec<u32>,
    addresses: &Table<MarketId, FundsAddresses>,
    miner_fee: u64,
) -> (r: Result<(), Error>)
    requires
        txs_fit(prevalidated.filled_transactions@),
        covers(addresses@, state_update@.sells, state_update@.buys),
    ensures
        *final(state) == (State {
            ledger: final(state).ledger,
            markets: final(state).markets,
            voting: final(state).voting,
            consolidation_undo: final(state).consolidation_undo,
            ..*old(state)
        }),
        match transactions_written(
            *old(state),
            state_update@,
            addresses@,
            prevalidated.coinbase_value,
            prevalidated.filled_transactions@,
            skipped@,
            prevalidated.next_height,
            miner_fee,
        ) {
            Err(e) => r == Err::<(), Error>(e),
            Ok(written) => {
                let height = prevalidated.next_height;
                &&& r is Ok
                &&& final(state).ledger@ == written.ledger
                &&& final(state).markets@ == written.markets
                &&& final(state).voting@ == written.voting
                &&& match written.undo {
                    None => final(state).consolidation_undo@ == old(state).consolidation_undo@,
                    Some(undo) => {
                        &&& final(state).consolidation_undo@.dom().contains(height)
                        &&& final(state).consolidation_undo@[height]@ == undo
                        &&& final(state).consolidation_undo@ == old(
                            state,
                        ).consolidation_undo@.insert(
                            height,
                            final(state).consolidation_undo@[height],
                        )
                    },
                }
            },
        },
{
    match state_update.validate_all_changes(&state.markets) {
        Err(e) => return Err(e),
        Ok(()) => {},
    }
    match BlockValidator::validate_fees(
        prevalidated.coinbase_value,
        &prevalidated.filled_transactions,
        skipped,
        miner_fee,
    ) {
        Err(e) => return Err(e),
        Ok(()) => {},
    }
    match move_all_coins(&mut state.ledger, &prevalidated.filled_transactions, skipped) {
        Err(e) => return Err(e),
        Ok(()) => {},
    }
    match state_update.apply_all_changes(
        &mut state.ledger,
        &mut state.markets,
        &mut state.voting.databases,
        addresses,
        prevalidated.next_height,
        miner_fee,
    ) {
        Err(e) => Err(e),
        Ok(None) => Ok(()),
        Ok(Some(undo)) => {
            state.consolidation_undo.put(prevalidated.next_height, undo);
            Ok(())
        },
    }
}

/// Opens the periods that come into sight with a block, and lists those whose
/// price is to be worked out anew. The first block opens all periods at the
/// price with which they start.
pub fn open_pricing(state: &mut State, height: u32, current_period: u32, interval: u32) -> (r: Vec<
    (u32, PeriodPricing),
>)
    requires
        current_period + FUTURE_PERIODS < u32::MAX,
        highest_or_zero(old(state).decisions@.periods) < u32::MAX,
    ensures
        *final(state) == (State { decisions: final(state).decisions, ..*old(state) }),
        if height == 0 {
            &&& r@.len() == 0
            &&& final(state).decisions@ == (DecisionsView {
                periods: minted(
                    old(state).decisions@.periods,
                    (current_period + FUTURE_PERIODS - 1) as u32,
                ),
                pricing: genesis_pricing(
                    old(state).decisions@.pricing,
                    current_period,
                    height,
                    old(state).decisions@.genesis_p_period_sats,
                    FUTURE_PERIODS as int,
                ),
                ..old(state).decisions@
            })
        } else {
            &&& r@ == to_reprice(old(state).decisions@, height, current_period, interval)
            &&& final(state).decisions@ == periods_opened(
                old(state).decisions@,
                height,
                current_period,
            )
        },
{
    if height == 0 {
        state.decisions.mint_genesis(current_period, height);
        Vec::new()
    } else {
        state.decisions.process_block_pricing(height, current_period, interval)
    }
}

/// Decisions with the period in which they are voted on.
pub type PeriodGroup = (u32, Vec<DecisionId>);

/// The decisions of a list that are voted on in a period.
pub open spec fn of_period(list: Seq<DecisionId>, period: u32) -> Seq<DecisionId>
    decreases list.len(),
{
    if list.len() == 0 {
        Seq::empty()
    } else if list.last().period() + 1 == period {
        of_period(list.drop_last(), period).push(list.last())
    } else {
        of_period(list.drop_last(), period)
    }
}

/// The list is grouped by period, in ascending order: each group holds all
/// decisions of its period, and each decision is in a group.
pub open spec fn is_grouped(groups: Seq<PeriodGroup>, list: Seq<DecisionId>) -> bool {
    &&& forall|i: int, j: int|
        0 <= i < j < groups.len() ==> (#[trigger] groups[i]).0 < (#[trigger] groups[j]).0
    &&& forall|i: int|
        0 <= i < groups.len() ==> (#[trigger] groups[i]).1@ == of_period(list, groups[i].0)
            && groups[i].1@.len() > 0
    &&& forall|k: int| 0 <= k < list.len() ==> has_group(groups, (#[trigger] list[k]).period() + 1)
}

pub open spec fn has_group(groups: Seq<PeriodGroup>, period: int) -> bool {
    exists|i: int| 0 <= i < groups.len() && (#[trigger] groups[i]).0 == period
}

fn add_to_group(groups: &mut Vec<PeriodGroup>, Ghost(list): Ghost<Seq<DecisionId>>, id: DecisionId)
    requires
        is_grouped(old(groups)@, list),
    ensures
        is_grouped(final(groups)@, list.push(id)),
{
    let period: u32 = id.voting_period();
    let ghost before = groups@;
    let ghost more = list.push(id);
    let mut at: usize = 0;
    while at < groups.len() && groups[at].0 < period
        invariant
            at <= groups@.len(),
            groups@ == before,
            forall|i: int| 0 <= i < at ==> (#[trigger] groups@[i]).0 < period,
        decreases groups@.len() - at,
    {
        at += 1;
    }
    assert(more.drop_last() =~= list);
    assert(forall|p: u32| #[trigger]
        of_period(more, p) == if p == period {
            of_period(list, p).push(id)
        } else {
            of_period(list, p)
        });
    if at < groups.len() && groups[at].0 == period {
        let mut group = groups.remove(at);
        let ghost removed = groups@;
        group.1.push(id);
        groups.insert(at, group);
        proof {
            let after = groups@;
            assert(after.len() == before.len());
            assert forall|i: int| 0 <= i < after.len() && i != at implies #[trigger] after[i]
                == before[i] by {}
            assert forall|i: int| 0 <= i < after.len() implies (#[trigger] after[i]).0
                == before[i].0 by {}
            assert forall|i: int, j: int| 0 <= i < j < after.len() implies (#[trigger] after[i]).0
                < (#[trigger] after[j]).0 by {
                assert(before[i].0 < before[j].0);
            }
            assert forall|i: int| 0 <= i < after.len() implies (#[trigger] after[i]).1@
                == of_period(more, after[i].0) && after[i].1@.len() > 0 by {
                assert(before[i].1@ == of_period(list, before[i].0));
                if i != at {
                    if i < at {
                        assert(before[i].0 < before[at as int].0);
                    } else {
                        assert(before[at as int].0 < before[i].0);
                    }
                }
            }
            assert forall|k: int| 0 <= k < more.len() implies has_group(
                after,
                (#[trigger] more[k]).period() + 1,
            ) by {
                if k < list.len() {
                    assert(list[k] == more[k]);
                    let i = choose|i: int|
                        0 <= i < before.len() && (#[trigger] before[i]).0 == list[k].period() + 1;
                    assert(after[i].0 == list[k].period() + 1);
                } else {
                    assert(after[at as int].0 == period);
                }
            }
        }
    } else {
        let mut ids: Vec<DecisionId> = Vec::new();
        ids.push(id);
        groups.insert(at, (period, ids));
        proof {
            let after = groups@;
            if has_group(before, period as int) {
                let i = choose|i: int|
                    0 <= i < before.len() && (#[trigger] before[i]).0 == period;
                if i > at {
                    assert(before[at as int].0 < before[i].0);
                }
            }
            lemma_no_group(before, list, period);
            assert(ids@ =~= of_period(more, period));
            assert forall|i: int, j: int| 0 <= i < j < after.len() implies (#[trigger] after[i]).0
                < (#[trigger] after[j]).0 by {
                if j < at {
                    assert(before[i].0 < before[j].0);
                } else if j > at && i < at {
                    assert(before[i].0 < period);
                    assert(after[j] == before[j - 1]);
                    if j - 1 > at {
                        assert(before[at as int].0 < before[j - 1].0);
                    }
                } else if j > at && i == at {
                    assert(after[j] == before[j - 1]);
                    if j - 1 > at {
                        assert(before[at as int].0 < before[j - 1].0);
                    }
                } else if i > at {
                    assert(before[i - 1].0 < before[j - 1].0);
                }
            }
            assert forall|i: int| 0 <= i < after.len() implies (#[trigger] after[i]).1@
                == of_period(more, after[i].0) && after[i].1@.len() > 0 by {
                if i < at {
                    assert(after[i] == before[i]);
                } else if i > at {
                    assert(after[i] == before[i - 1]);
                    assert(has_group(before, before[i - 1].0 as int));
                    if before[i - 1].0 == period {
                        assert(has_group(before, period as int));
                    }
                }
            }
            assert forall|k: int| 0 <= k < more.len() implies has_group(
                after,
                (#[trigger] more[k]).period() + 1,
            ) by {
                if k < list.len() {
                    assert(list[k] == more[k]);
                    let i = choose|i: int|
                        0 <= i < before.len() && (#[trigger] before[i]).0 == list[k].period() + 1;
                    if i < at {
                        assert(after[i] == before[i]);
                    } else {
                        assert(after[i + 1] == before[i]);
                    }
                } else {
                    assert(after[at as int].0 == period);
                }
            }
        }
    }
}

/// A period without a group has no decision in the list.
proof fn lemma_no_group(groups: Seq<PeriodGroup>, list: Seq<DecisionId>, period: u32)
    requires
        forall|k: int|
            0 <= k < list.len() ==> has_group(groups, (#[trigger] list[k]).period() + 1),
        !has_group(groups, period as int),
    ensures
        of_period(list, period) == Seq::<DecisionId>::empty(),
    decreases list.len(),
{
    if list.len() > 0 {
        assert(list[list.len() - 1] == list.last());
        assert forall|k: int| 0 <= k < list.drop_last().len() implies has_group(
            groups,
            (#[trigger] list.drop_last()[k]).period() + 1,
        ) by {
            assert(list[k] == list.drop_last()[k]);
        }
        lemma_no_group(groups, list.drop_last(), period);
    }
}

/// The decisions whose voting period is over, by period, in ascending order.
pub fn periods_to_resolve(state: &State, current_period: u32) -> (r: Vec<PeriodGroup>)
    ensures
        is_grouped(
            r@,
            transition_list(
                rows_of(state.decisions@.histories),
                DecisionState::Voting,
                1,
                current_period,
            ),
        ),
{
    let ids = state.decisions.get_voting_decisions_needing_resolution(current_period);
    let mut groups: Vec<PeriodGroup> = Vec::new();
    let mut i: usize = 0;
    while i < ids.len()
        invariant
            i <= ids@.len(),
            is_grouped(groups@, ids@.subrange(0, i as int)),
        decreases ids@.len() - i,
    {
        add_to_group(&mut groups, Ghost(ids@.subrange(0, i as int)), ids[i]);
        assert(ids@.subrange(0, i as int).push(ids@[i as int]) =~= ids@.subrange(0, i + 1));
        i += 1;
    }
    assert(ids@.subrange(0, i as int) =~= ids@);
    groups
}

/// Makes a block the tip, and keeps what undoes it.
pub fn close_block(
    state: &mut State,
    height: u32,
    block_hash: BlockHash,
    mainchain_timestamp: u64,
    skipped: Vec<u32>,
    consensus_undo: Vec<ConsensusUndoEntry>,
    settlement_undo: Vec<SettlementUndoEntry>,
)
    ensures
        *final(state) == (State {
            tip: Some(block_hash),
            height: Some(height),
            mainchain_timestamp: Some(mainchain_timestamp),
            consensus_undo: final(state).consensus_undo,
            settlement_undo: final(state).settlement_undo,
            skipped_tx_indices_undo: final(state).skipped_tx_indices_undo,
            ..*old(state)
        }),
        final(state).consensus_undo@ == if consensus_undo@.len() > 0 {
            old(state).consensus_undo@.insert(height, consensus_undo)
        } else {
            old(state).consensus_undo@
        },
        final(state).settlement_undo@ == if settlement_undo@.len() > 0 {
            old(state).settlement_undo@.insert(height, settlement_undo)
        } else {
            old(state).settlement_undo@
        },
        final(state).skipped_tx_indices_undo@ == if skipped@.len() > 0 {
            old(state).skipped_tx_indices_undo@.insert(height, skipped)
        } else {
            old(state).skipped_tx_indices_undo@
        },
{
    if consensus_undo.len() > 0 {
        state.consensus_undo.put(height, consensus_undo);
    }
    if settlement_undo.len() > 0 {
        state.settlement_undo.put(height, settlement_undo);
    }
    if skipped.len() > 0 {
        state.skipped_tx_indices_undo.put(height, skipped);
    }
    state.tip = Some(block_hash);
    state.height = Some(height);
    state.mainchain_timestamp = Some(mainchain_timestamp);
}

} // verus!
