//! Disconnecting the tip.
//!
//! The tip is disconnected step by step, from the end of the block to its
//! start:
//!
//! 1. [`disconnect_tip`] checks the block and undoes what was done after its
//!    transactions;
//! 2. [`revert_transaction`] takes the transactions back, the last one first;
//! 3. [`finish_disconnect`] undoes the rest, and makes the block before it the
//!    tip.

use vstd::prelude::*;

use crate::state::block::claims::{
    creator_of, entries_unclaimed, payloads_unclaimed, revert_decision_claim,
};
use crate::state::block::coins::{coins_moved_back, revert_utxo_changes};
use crate::state::block::connect::coinbase_point;
use crate::state::block::creation::revert_create_market;
use crate::state::block::trades::{
    amplify_unmade, revert_amplify_beta, revert_trade_market_state, trade_coins_removed,
    trade_unmade, TradeShareDelta,
};
use crate::state::block::votes::{
    ballot_removed, revert_submit_ballot, revert_submit_vote, revert_transfers, transfers_undone,
    vote_removed,
};
use crate::state::consolidation::{holdings, revert_consolidation, unconsolidated};
use crate::state::decisions::database::{
    all_purged, restored_pricing, unclaimed_by, DecisionsView, PeriodEntries,
};
use crate::state::decisions::types::{up_to_height, HistoryEntry};
use crate::state::error::InvalidHeader;
use crate::state::ledger::{
    all_spent, last_unspent, outputs_spent, spent_by, Ledger, LedgerView, UtxoManager,
};
use crate::state::markets::database::MarketsView;
use crate::state::markets::types::MarketId;
use crate::state::reputation::{positives, ReputationDbs, Reputations};
use crate::state::undo::{revert_settlement, settlements_undone};
use crate::state::update::{accounts_changed, change_accounts, ShareChangeKey};
use crate::state::voting::database::{VotingDatabases, VotingView};
use crate::state::voting::system::{reckoning_undone, revert_consensus_entry, ConsensusUndoEntry};
use crate::state::{Error, Reason, State};
use crate::table::{rows_of, Table};
use crate::types::block::Header;
use crate::types::encoding::Encode;
use crate::types::transaction::output::TxOutput;
use crate::types::transaction::{FilledTransaction, OutPoint, Transaction, TransactionData};
use crate::types::{BlockHash, Duplicate, MerkleRoot};

verus! {

/// What is wrong with the block that is to be disconnected.
pub open spec fn tip_problem(
    tip: Option<BlockHash>,
    height: Option<u32>,
    header: Header,
    block_hash: BlockHash,
    merkle_root: MerkleRoot,
) -> Option<Error> {
    match tip {
        None => Some(Error::NoTip),
        Some(tip) => if tip != block_hash {
            Some(
                Error::InvalidHeader(
                    InvalidHeader::BlockHash { expected: tip, computed: block_hash },
                ),
            )
        } else if merkle_root != header.merkle_root {
            Some(Error::InvalidBody { expected: header.merkle_root, computed: merkle_root })
        } else if height is None {
            Some(Error::NoTip)
        } else {
            None
        },
    }
}

/// The votes and reputations before periods were reckoned, the last one undone
/// first.
pub open spec fn reckonings_undone(
    voting: VotingView,
    reputation: Reputations,
    entries: Seq<ConsensusUndoEntry>,
) -> (VotingView, Reputations)
    decreases entries.len(),
{
    if entries.len() == 0 {
        (voting, reputation)
    } else {
        let e = entries.last();
        reckonings_undone(
            reckoning_undone(
                voting,
                e.decision_outcome_ids@,
                e.had_period_stats,
                e.period_id,
            ),
            positives(e.pre_consensus_reputation@),
            entries.drop_last(),
        )
    }
}

/// Undoes the reckoning of periods.
pub fn revert_consensus(
    voting: &mut VotingDatabases,
    reputation: &mut ReputationDbs,
    undo: &Vec<ConsensusUndoEntry>,
)
    ensures
        (final(voting)@, final(reputation)@) == reckonings_undone(
            old(voting)@,
            old(reputation)@,
            undo@,
        ),
{
    let mut i: usize = undo.len();
    assert(undo@.subrange(0, i as int) =~= undo@);
    while i > 0
        invariant
            i <= undo@.len(),
            reckonings_undone(voting@, reputation@, undo@.subrange(0, i as int))
                == reckonings_undone(old(voting)@, old(reputation)@, undo@),
        decreases i,
    {
        i -= 1;
        assert(undo@.subrange(0, i + 1).drop_last() =~= undo@.subrange(0, i as int));
        revert_consensus_entry(voting, reputation, &undo[i]);
    }
    assert(undo@.subrange(0, 0) =~= Seq::empty());
}

/// The parts of the state that the first step changes.
pub struct Undone {
    pub ledger: LedgerView,
    pub markets: MarketsView,
    pub voting: VotingView,
    pub reputation: Reputations,
}

/// What was done after the transactions of a block is undone: first the
/// settlement of markets, then the reckoning of periods, then the
/// consolidation of market funds.
pub open spec fn end_undone(state: State, height: u32) -> Result<Undone, Error> {
    let settled = if state.settlement_undo@.dom().contains(height) {
        settlements_undone(
            state.ledger@,
            state.markets@,
            state.settlement_undo@[height]@,
            height,
        )
    } else {
        Ok((state.ledger@, state.markets@))
    };
    match settled {
        Err(e) => Err(e),
        Ok((ledger, markets)) => {
            let (voting, reputation) = if state.consensus_undo@.dom().contains(height) {
                reckonings_undone(
                    state.voting@,
                    state.reputation@,
                    state.consensus_undo@[height]@,
                )
            } else {
                (state.voting@, state.reputation@)
            };
            let held = if state.consolidation_undo@.dom().contains(height) {
                unconsolidated(holdings(ledger, markets), state.consolidation_undo@[height]@)
            } else {
                holdings(ledger, markets)
            };
            Ok(
                Undone {
                    ledger: held.ledger,
                    markets: MarketsView { funds: held.funds, ..markets },
                    voting,
                    reputation,
                },
            )
        },
    }
}

/// Checks that a block is the tip, and undoes what was done after its
/// transactions. `block_hash` is the hash of the header, and `merkle_root` the
/// root of the body.
pub fn disconnect_tip(
    state: &mut State,
    header: &Header,
    block_hash: BlockHash,
    merkle_root: MerkleRoot,
) -> (r: Result<u32, Error>)
    ensures
        *final(state) == (State {
            ledger: final(state).ledger,
            markets: final(state).markets,
            voting: final(state).voting,
            reputation: final(state).reputation,
            settlement_undo: final(state).settlement_undo,
            consensus_undo: final(state).consensus_undo,
            consolidation_undo: final(state).consolidation_undo,
            ..*old(state)
        }),
        match tip_problem(
            old(state).tip,
            old(state).height,
            *header,
            block_hash,
            merkle_root,
        ) {
            Some(e) => r == Err::<u32, Error>(e) && *final(state) == *old(state),
            None => {
                let height = old(state).height->Some_0;
                match end_undone(*old(state), height) {
                    Err(e) => r == Err::<u32, Error>(e),
                    Ok(undone) => {
                        &&& r == Ok::<u32, Error>(height)
                        &&& final(state).ledger@ == undone.ledger
                        &&& final(state).markets@ == undone.markets
                        &&& final(state).voting@ == undone.voting
                        &&& final(state).reputation@ == undone.reputation
                        &&& final(state).settlement_undo@ == old(state).settlement_undo@.remove(
                            height,
                        )
                        &&& final(state).consensus_undo@ == old(state).consensus_undo@.remove(
                            height,
                        )
                        &&& final(state).consolidation_undo@ == old(
                            state,
                        ).consolidation_undo@.remove(height)
                    },
                }
            },
        },
{
    let tip_hash = match state.tip {
        None => return Err(Error::NoTip),
        Some(tip) => tip,
    };
    if tip_hash != block_hash {
        return Err(
            Error::InvalidHeader(
                InvalidHeader::BlockHash { expected: tip_hash, computed: block_hash },
            ),
        );
    }
    if merkle_root != header.merkle_root {
        return Err(Error::InvalidBody { expected: header.merkle_root, computed: merkle_root });
    }
    let height: u32 = match state.height {
        None => return Err(Error::NoTip),
        Some(height) => height,
    };
    match state.settlement_undo.take(&height) {
        None => {},
        Some(undo) => match revert_settlement(
            &mut state.ledger,
            &mut state.markets,
            undo,
            height,
        ) {
            Err(e) => return Err(e),
            Ok(()) => {},
        },
    }
    match state.consensus_undo.take(&height) {
        None => {},
        Some(undo) => revert_consensus(
            &mut state.voting.databases, &mut state.reputation,
            &undo,
        ),
    }
    match state.consolidation_undo.take(&height) {
        None => {},
        Some(undo) => revert_consolidation(&mut state.ledger, &mut state.markets, &undo),
    }
    Ok(height)
}

/// What is worked out elsewhere to take a transaction back.
#[derive(Clone, Copy, Debug)]
pub enum UndoFigures {
    /// For a transaction that needs nothing.
    Nothing,
    /// The volume that a trade added, if that could be worked out.
    Trade(Option<u64>),
    /// The id of the market that was created.
    Creation(MarketId),
}

pub open spec fn undo_figures_fit(data: Option<TransactionData>, figures: UndoFigures) -> bool {
    match data {
        Some(TransactionData::Trade { .. }) => figures is Trade,
        Some(TransactionData::CreateMarket { .. }) => figures is Creation,
        _ => true,
    }
}

/// The parts of the state that taking a transaction back changes, but for its
/// coins.
#[verifier::ext_equal]
pub struct Reverting {
    pub ledger: LedgerView,
    pub markets: MarketsView,
    pub decisions: DecisionsView,
    pub voting: VotingView,
    pub delta: Option<TradeShareDelta>,
}

/// What a transaction did, besides moving coins, is undone.
pub open spec fn data_reverted(
    before: Reverting,
    tx: FilledTransaction,
    figures: UndoFigures,
    height: u32,
) -> Result<Reverting, Error> {
    match tx.transaction.data {
        None => Ok(before),
        Some(TransactionData::ClaimDecision(payload)) => Ok(
            Reverting {
                decisions: entries_unclaimed(before.decisions, payload.decisions@),
                ..before
            },
        ),
        Some(
            TransactionData::CreateMarket {
                title,
                description,
                dimension_specs,
                new_claims,
                trading_fee,
                tx_pow_hash_selector,
                tx_pow_ordering,
                tx_pow_difficulty,
            },
        ) => match creator_of(tx) {
            Err(e) => Err(e),
            Ok(_) => Ok(
                Reverting {
                    markets: MarketsView {
                        markets: before.markets.markets.remove(figures->Creation_0),
                        ..before.markets
                    },
                    decisions: payloads_unclaimed(before.decisions, new_claims@),
                    ..before
                },
            ),
        },
        Some(TransactionData::Trade { .. }) => {
            let trade = tx.trade_of()->Some_0;
            match trade_unmade(before.markets, tx, height, figures->Trade_0) {
                Err(e) => Err(e),
                Ok(markets) => Ok(
                    Reverting {
                        markets,
                        ledger: trade_coins_removed(
                            before.ledger,
                            trade,
                            tx.transaction.id().0,
                        ),
                        delta: Some(
                            TradeShareDelta {
                                address: trade.trader,
                                market_id: trade.market_id,
                                outcome_index: trade.outcome_index,
                                share_delta: (-trade.shares) as i64,
                            },
                        ),
                        ..before
                    },
                ),
            }
        },
        Some(
            TransactionData::SubmitVote { voter, decision_id_bytes, vote_value, voting_period },
        ) => Ok(
            Reverting {
                voting: vote_removed(before.voting, voter, decision_id_bytes),
                ..before
            },
        ),
        Some(TransactionData::SubmitBallot { voter, votes, voting_period }) => Ok(
            Reverting { voting: ballot_removed(before.voting, voter, votes@), ..before },
        ),
        Some(TransactionData::TransferReputation { .. }) => Ok(before),
        Some(TransactionData::AmplifyBeta { .. }) => match amplify_unmade(before.markets, tx) {
            Err(e) => Err(e),
            Ok(markets) => Ok(Reverting { markets, ..before }),
        },
    }
}

pub open spec fn reverting_parts(state: State, delta: Option<TradeShareDelta>) -> Reverting {
    Reverting {
        ledger: state.ledger@,
        markets: state.markets@,
        decisions: state.decisions@,
        voting: state.voting@,
        delta,
    }
}

fn revert_data(
    state: &mut State,
    filled_tx: &FilledTransaction,
    figures: &UndoFigures,
    height: u32,
) -> (r: Result<Option<TradeShareDelta>, Error>)
    requires
        filled_tx.transaction.encodable(),
        undo_figures_fit(filled_tx.transaction.data, *figures),
    ensures
        *final(state) == (State {
            ledger: final(state).ledger,
            markets: final(state).markets,
            decisions: final(state).decisions,
            voting: final(state).voting,
            ..*old(state)
        }),
        match data_reverted(reverting_parts(*old(state), None), *filled_tx, *figures, height) {
            Err(e) => r == Err::<Option<TradeShareDelta>, Error>(e),
            Ok(after) => {
                &&& r is Ok
                &&& after == reverting_parts(*final(state), r->Ok_0)
            },
        },
{
    match (&filled_tx.transaction.data, figures) {
        (Some(TransactionData::ClaimDecision(_)), _) => {
            match revert_decision_claim(&mut state.decisions, filled_tx) {
                Err(e) => Err(e),
                Ok(()) => Ok(None),
            }
        },
        (Some(TransactionData::CreateMarket { .. }), UndoFigures::Creation(market_id)) => {
            match revert_create_market(
                &mut state.decisions,
                &mut state.markets,
                filled_tx,
                market_id,
            ) {
                Err(e) => Err(e),
                Ok(()) => Ok(None),
            }
        },
        (Some(TransactionData::Trade { .. }), UndoFigures::Trade(volume)) => {
            match revert_trade_market_state(
                &mut state.markets,
                &mut state.ledger,
                filled_tx,
                height,
                *volume,
            ) {
                Err(e) => Err(e),
                Ok(delta) => Ok(Some(delta)),
            }
        },
        (Some(TransactionData::SubmitVote { .. }), _) => {
            match revert_submit_vote(&mut state.voting.databases, filled_tx) {
                Err(e) => Err(e),
                Ok(()) => Ok(None),
            }
        },
        (Some(TransactionData::SubmitBallot { .. }), _) => {
            match revert_submit_ballot(&mut state.voting.databases, filled_tx) {
                Err(e) => Err(e),
                Ok(()) => Ok(None),
            }
        },
        (Some(TransactionData::AmplifyBeta { .. }), _) => {
            match revert_amplify_beta(&mut state.markets, filled_tx) {
                Err(e) => Err(e),
                Ok(()) => Ok(None),
            }
        },
        _ => Ok(None),
    }
}

/// The transaction with the outputs that it spent.
pub open spec fn is_filled_from(filled: FilledTransaction, tx: Transaction, ledger: LedgerView)
    -> bool {
    &&& filled.transaction == tx
    &&& filled.actor_address is None
    &&& filled.spent_utxos@ == outputs_spent(ledger.stxos, tx.inputs@)
}

/// Takes back a transaction that took effect. Says how the account of a trader
/// is to be changed.
pub fn revert_transaction(
    state: &mut State,
    tx: &Transaction,
    figures: &UndoFigures,
    height: u32,
) -> (r: Result<Option<TradeShareDelta>, Error>)
    requires
        tx.encodable(),
        undo_figures_fit(tx.data, *figures),
        spent_by(old(state).ledger@.stxos, tx.inputs@, tx.id_bytes()),
    ensures
        *final(state) == (State {
            ledger: final(state).ledger,
            markets: final(state).markets,
            decisions: final(state).decisions,
            voting: final(state).voting,
            ..*old(state)
        }),
        if !all_spent(old(state).ledger@.stxos, tx.inputs@) {
            exists|i: int| #[trigger]
                last_unspent(old(state).ledger@.stxos, tx.inputs@, i) && r == Err::<
                    Option<TradeShareDelta>,
                    Error,
                >(Error::NoStxo { outpoint: tx.inputs@[i] })
        } else {
            exists|filled: FilledTransaction| #[trigger]
                is_filled_from(filled, *tx, old(state).ledger@) && match data_reverted(
                    reverting_parts(*old(state), None),
                    filled,
                    *figures,
                    height,
                ) {
                    Err(e) => r == Err::<Option<TradeShareDelta>, Error>(e),
                    Ok(after) => match coins_moved_back(after.ledger, *tx) {
                        Err(e) => r == Err::<Option<TradeShareDelta>, Error>(e),
                        Ok(ledger) => r is Ok && reverting_parts(*final(state), r->Ok_0) == (
                        Reverting { ledger, ..after }),
                    },
                }
        },
{
    let filled_tx = match state.ledger.fill_transaction_from_stxos(tx.duplicate()) {
        Err(e) => {
            proof {
                let i = choose|i: int| #[trigger]
                    last_unspent(state.ledger@.stxos, tx.inputs@, i) && e == (Error::NoStxo {
                        outpoint: tx.inputs@[i],
                    });
                assert(!state.ledger@.stxos.dom().contains(tx.inputs@[i]));
            }
            return Err(e);
        },
        Ok(filled_tx) => filled_tx,
    };
    assert(is_filled_from(filled_tx, *tx, old(state).ledger@));
    let delta = match revert_data(state, &filled_tx, figures, height) {
        Err(e) => return Err(e),
        Ok(delta) => delta,
    };
    match revert_utxo_changes(&mut state.ledger, tx) {
        Err(e) => Err(e),
        Ok(()) => Ok(delta),
    }
}

/// Takes back a transaction as [`revert_transaction`] does, or changes nothing
/// where its inputs are noted as spent by another one.
pub fn revert_own_transaction(
    state: &mut State,
    tx: &Transaction,
    figures: &UndoFigures,
    height: u32,
) -> (r: Option<Result<Option<TradeShareDelta>, Error>>)
    requires
        tx.encodable(),
        undo_figures_fit(tx.data, *figures),
    ensures
        *final(state) == (State {
            ledger: final(state).ledger,
            markets: final(state).markets,
            decisions: final(state).decisions,
            voting: final(state).voting,
            ..*old(state)
        }),
        if !spent_by(old(state).ledger@.stxos, tx.inputs@, tx.id_bytes()) {
            r is None && *final(state) == *old(state)
        } else if !all_spent(old(state).ledger@.stxos, tx.inputs@) {
            exists|i: int| #[trigger]
                last_unspent(old(state).ledger@.stxos, tx.inputs@, i) && r == Some(
                    Err::<Option<TradeShareDelta>, Error>(
                        Error::NoStxo { outpoint: tx.inputs@[i] },
                    ),
                )
        } else {
            r is Some && exists|filled: FilledTransaction| #[trigger]
                is_filled_from(filled, *tx, old(state).ledger@) && match data_reverted(
                    reverting_parts(*old(state), None),
                    filled,
                    *figures,
                    height,
                ) {
                    Err(e) => r->Some_0 == Err::<Option<TradeShareDelta>, Error>(e),
                    Ok(after) => match coins_moved_back(after.ledger, *tx) {
                        Err(e) => r->Some_0 == Err::<Option<TradeShareDelta>, Error>(e),
                        Ok(ledger) => r->Some_0 is Ok && reverting_parts(
                            *final(state),
                            r->Some_0->Ok_0,
                        ) == (Reverting { ledger, ..after }),
                    },
                }
        },
{
    if state.ledger.is_spent_by(tx) {
        Some(revert_transaction(state, tx, figures, height))
    } else {
        None
    }
}

pub open spec fn delta_key(delta: TradeShareDelta) -> ShareChangeKey {
    ShareChangeKey {
        address: delta.address,
        market_id: delta.market_id,
        outcome_index: delta.outcome_index,
    }
}

/// The changes of accounts, added up.
pub open spec fn batched(deltas: Seq<TradeShareDelta>) -> Result<Map<ShareChangeKey, i64>, Error>
    decreases deltas.len(),
{
    if deltas.len() == 0 {
        Ok(Map::empty())
    } else {
        match batched(deltas.drop_last()) {
            Err(e) => Err(e),
            Ok(before) => {
                let key = delta_key(deltas.last());
                let sum = deltas.last().share_delta + if before.dom().contains(key) {
                    before[key] as int
                } else {
                    0
                };
                if !(i64::MIN <= sum <= i64::MAX) {
                    Err(Error::InvalidTransaction { reason: Reason::Text("Share change overflow") })
                } else {
                    Ok(before.insert(key, sum as i64))
                }
            },
        }
    }
}

proof fn lemma_batched_prefix(deltas: Seq<TradeShareDelta>, n: int)
    requires
        0 <= n <= deltas.len(),
        batched(deltas.subrange(0, n)) is Err,
    ensures
        batched(deltas) == batched(deltas.subrange(0, n)),
    decreases deltas.len() - n,
{
    if n == deltas.len() {
        assert(deltas.subrange(0, n) =~= deltas);
    } else {
        assert(deltas.subrange(0, n + 1).drop_last() =~= deltas.subrange(0, n));
        lemma_batched_prefix(deltas, n + 1);
    }
}

fn batch(deltas: &Vec<TradeShareDelta>) -> (r: Result<Table<ShareChangeKey, i64>, Error>)
    ensures
        match r {
            Ok(changes) => batched(deltas@) == Ok::<Map<ShareChangeKey, i64>, Error>(changes@),
            Err(e) => batched(deltas@) == Err::<Map<ShareChangeKey, i64>, Error>(e),
        },
{
    let mut changes: Table<ShareChangeKey, i64> = Table::new();
    let mut i: usize = 0;
    assert(deltas@.subrange(0, 0) =~= Seq::empty());
    while i < deltas.len()
        invariant
            i <= deltas@.len(),
            batched(deltas@.subrange(0, i as int)) == Ok::<Map<ShareChangeKey, i64>, Error>(
                changes@,
            ),
        decreases deltas@.len() - i,
    {
        proof {
            assert(deltas@.subrange(0, i + 1).drop_last() =~= deltas@.subrange(0, i as int));
        }
        let delta = &deltas[i];
        let key = ShareChangeKey {
            address: delta.address,
            market_id: delta.market_id,
            outcome_index: delta.outcome_index,
        };
        let before: i64 = match changes.get(&key) {
            Some(before) => *before,
            None => 0,
        };
        match before.checked_add(delta.share_delta) {
            None => {
                proof {
                    lemma_batched_prefix(deltas@, i + 1);
                }
                return Err(
                    Error::InvalidTransaction { reason: Reason::Text("Share change overflow") },
                );
            },
            Some(sum) => changes.put(key, sum),
        }
        i += 1;
    }
    assert(deltas@.subrange(0, i as int) =~= deltas@);
    Ok(changes)
}

/// The ledger without the first `n` outputs of a coinbase, the last one first.
pub open spec fn coinbase_unmade(ledger: LedgerView, merkle_root: MerkleRoot, n: nat) -> Result<
    LedgerView,
    Error,
>
    decreases n,
{
    if n == 0 {
        Ok(ledger)
    } else {
        let point = coinbase_point(merkle_root, n - 1);
        if !ledger.utxos.dom().contains(point) {
            Err(Error::NoUtxo { outpoint: point })
        } else {
            coinbase_unmade(ledger.delete(point), merkle_root, (n - 1) as nat)
        }
    }
}

fn remove_coinbase(ledger: &mut Ledger, merkle_root: MerkleRoot, n: usize) -> (r: Result<(), Error>)
    requires
        n <= u32::MAX,
    ensures
        match r {
            Ok(()) => coinbase_unmade(old(ledger)@, merkle_root, n as nat) == Ok::<
                LedgerView,
                Error,
            >(final(ledger)@),
            Err(e) => coinbase_unmade(old(ledger)@, merkle_root, n as nat) == Err::<
                LedgerView,
                Error,
            >(e),
        },
{
    let mut k: usize = n;
    while k > 0
        invariant
            k <= n <= u32::MAX,
            coinbase_unmade(ledger@, merkle_root, k as nat) == coinbase_unmade(
                old(ledger)@,
                merkle_root,
                n as nat,
            ),
        decreases k,
    {
        k -= 1;
        let outpoint = OutPoint::Coinbase { merkle_root, vout: k as u32 };
        if !ledger.delete_utxo(&outpoint) {
            return Err(Error::NoUtxo { outpoint });
        }
    }
    Ok(())
}

/// The tip and its height before a block.
pub open spec fn tip_before(header: Header, height: u32) -> Result<
    (Option<BlockHash>, Option<u32>),
    Error,
> {
    match header.prev_side_hash {
        None => if height == 0 {
            Ok((None, None))
        } else {
            Err(Error::NoTip)
        },
        Some(prev) => if height == 0 {
            Err(Error::NoTip)
        } else {
            Ok((Some(prev), Some((height - 1) as u32)))
        },
    }
}

/// The decisions before a block: states are rolled back, new periods go, and
/// the old prices come back.
pub open spec fn decisions_before(
    view: DecisionsView,
    minting_undo: Map<u32, u32>,
    height: u32,
) -> DecisionsView {
    let rolled_back = if height > 0 {
        DecisionsView {
            histories: view.histories.map_values(
                |h: Seq<HistoryEntry>| up_to_height(h, (height - 1) as u32),
            ),
            periods: all_purged(
                view.periods,
                unclaimed_by(rows_of(view.histories), (height - 1) as u32),
            ),
            ..view
        }
    } else {
        view
    };
    let unminted = if minting_undo.dom().contains(height) {
        DecisionsView {
            periods: periods_up_to(rolled_back.periods, minting_undo[height]),
            ..rolled_back
        }
    } else {
        rolled_back
    };
    if unminted.pricing_undo.dom().contains(height) {
        DecisionsView {
            pricing: restored_pricing(unminted.pricing, unminted.pricing_undo[height]),
            pricing_undo: unminted.pricing_undo.remove(height),
            ..unminted
        }
    } else {
        unminted
    }
}

pub open spec fn periods_up_to(
    periods: Map<u32, PeriodEntries>,
    max_period: u32,
) -> Map<u32, PeriodEntries> {
    periods.restrict(Set::new(|p: u32| p <= max_period))
}

/// The parts of the state that the last step changes.
pub struct Finished {
    pub ledger: LedgerView,
    pub markets: MarketsView,
    pub reputation: Reputations,
    pub decisions: DecisionsView,
    pub tip: Option<BlockHash>,
    pub height: Option<u32>,
}

/// The rest of a block is undone: the accounts of traders, transfers of
/// reputation, the pay of the miner, and what happened to decisions.
pub open spec fn start_undone(
    state: State,
    header: Header,
    coinbase_len: nat,
    deltas: Seq<TradeShareDelta>,
    height: u32,
) -> Result<Finished, Error> {
    match batched(deltas) {
        Err(e) => Err(e),
        Ok(changes) => match accounts_changed(state.markets@, rows_of(changes), height) {
            Err(e) => Err(e),
            Ok(markets) => match coinbase_unmade(
                state.ledger@,
                header.merkle_root,
                coinbase_len,
            ) {
                Err(e) => Err(e),
                Ok(ledger) => match tip_before(header, height) {
                    Err(e) => Err(e),
                    Ok((tip, before)) => Ok(
                        Finished {
                            ledger,
                            markets,
                            reputation: if state.reputation_transfer_undo@.dom().contains(
                                height,
                            ) {
                                transfers_undone(
                                    state.reputation@,
                                    state.reputation_transfer_undo@[height]@,
                                )
                            } else {
                                state.reputation@
                            },
                            decisions: decisions_before(
                                state.decisions@,
                                state.minting_undo@,
                                height,
                            ),
                            tip,
                            height: before,
                        },
                    ),
                },
            },
        },
    }
}

fn restore_decisions(state: &mut State, height: u32)
    ensures
        *final(state) == (State {
            decisions: final(state).decisions,
            minting_undo: final(state).minting_undo,
            ..*old(state)
        }),
        final(state).decisions@ == decisions_before(
            old(state).decisions@,
            old(state).minting_undo@,
            height,
        ),
        final(state).minting_undo@ == old(state).minting_undo@.remove(height),
{
    if height > 0 {
        state.decisions.rollback_decision_states_to_height(height - 1);
    }
    match state.minting_undo.take(&height) {
        None => {},
        Some(highest) => state.decisions.delete_periods_above(highest),
    }
    state.decisions.restore_period_pricing_undo(height);
}

/// Undoes the rest of a block, and makes the block before it the tip. `deltas`
/// are the changes of accounts that the transactions asked for.
pub fn finish_disconnect(
    state: &mut State,
    header: &Header,
    coinbase: &Vec<TxOutput>,
    deltas: &Vec<TradeShareDelta>,
    height: u32,
) -> (r: Result<(), Error>)
    requires
        coinbase@.len() <= u32::MAX,
    ensures
        *final(state) == (State {
            ledger: final(state).ledger,
            markets: final(state).markets,
            reputation: final(state).reputation,
            decisions: final(state).decisions,
            tip: final(state).tip,
            height: final(state).height,
            minting_undo: final(state).minting_undo,
            reputation_transfer_undo: final(state).reputation_transfer_undo,
            skipped_tx_indices_undo: final(state).skipped_tx_indices_undo,
            ..*old(state)
        }),
        match start_undone(*old(state), *header, coinbase@.len(), deltas@, height) {
            Err(e) => r == Err::<(), Error>(e),
            Ok(done) => {
                &&& r is Ok
                &&& final(state).ledger@ == done.ledger
                &&& final(state).markets@ == done.markets
                &&& final(state).reputation@ == done.reputation
                &&& final(state).decisions@ == done.decisions
                &&& final(state).tip == done.tip
                &&& final(state).height == done.height
                &&& final(state).minting_undo@ == old(state).minting_undo@.remove(height)
                &&& final(state).reputation_transfer_undo@ == old(
                    state,
                ).reputation_transfer_undo@.remove(height)
                &&& final(state).skipped_tx_indices_undo@ == old(
                    state,
                ).skipped_tx_indices_undo@.remove(height)
            },
        },
{
    let _ = state.skipped_tx_indices_undo.take(&height);
    let changes = match batch(deltas) {
        Err(e) => return Err(e),
        Ok(changes) => changes,
    };
    match change_accounts(&mut state.markets, &changes, height) {
        Err(e) => return Err(e),
        Ok(()) => {},
    }
    match state.reputation_transfer_undo.take(&height) {
        None => {},
        Some(entries) => revert_transfers(&mut state.reputation, &entries),
    }
    match remove_coinbase(&mut state.ledger, header.merkle_root, coinbase.len()) {
        Err(e) => return Err(e),
        Ok(()) => {},
    }
    restore_decisions(state, height);
    match header.prev_side_hash {
        None => {
            if height > 0 {
                return Err(Error::NoTip);
            }
            state.tip = None;
            state.height = None;
        },
        Some(prev) => {
            if height == 0 {
                return Err(Error::NoTip);
            }
            state.tip = Some(prev);
            state.height = Some(height - 1);
        },
    }
    Ok(())
}

} // verus!
