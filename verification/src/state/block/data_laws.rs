//! What holds of connecting and disconnecting a whole block of transactions that
//! move coins, claim decisions, vote, or transfer reputation.

use vstd::prelude::*;

use crate::mempool::entry_ids;
use crate::state::block::claim_laws::{
    can_go, claiming_adds_claims, claims_added, disconnecting_undoes_claiming, is_fresh,
    lemma_none_added, lemma_still_fresh, unclaiming_removes_claims, with_blank, without_ids,
};
use crate::state::block::claims::{creator_of, entries_claimed, entries_unclaimed, Claimer};
use crate::state::block::coin_laws::{
    forgetting, inputs_of, moves_fit, taking_back_gives_back_coins,
};
use crate::state::block::coins::coins_moved_back;
use crate::state::block::connect::{
    block_opened, coinbase_made, opened_parts, transactions_written, transfers_at,
    transfers_view, tx_applied, Applying, Opened, TxFigures,
};
use crate::state::block::decision_laws::happened_under;
use crate::state::block::disconnect::{
    data_reverted, end_undone, reverting_parts, start_undone, tip_problem, Reverting, UndoFigures,
};
use crate::state::block::laws::coinbase_free;
use crate::state::block::plain_laws::{
    all_reckoned, have_own_ids, is_closed, is_opened, is_written, lemma_coinbase_back,
    lemma_no_rows, lemma_nothing_gathered, nothing_kept, plain_taken_back,
    reverting_undoes_all_reckonings, to_reckon, Standing,
};
use crate::state::block::progress::skipped_at;
use crate::state::block::trades::TradeShareDelta;
use crate::state::block::votes::{
    ballot_removed, ballot_votes, is_item_key, lemma_ballot_put, lemma_ballot_removed,
    transfer_applied, transfers_undone, undoing_a_transfer, vote_on, vote_removed, Casting,
    ReputationTransferUndoEntry,
};
use crate::state::consolidation::FundsAddresses;
use crate::state::decisions::database::{highest_or_zero, DecisionsView, PeriodEntries};
use crate::state::decisions::types::FUTURE_PERIODS;
use crate::state::decisions::{DecisionId, PeriodPricing};
use crate::state::ledger::{all_spent, spent_by};
use crate::state::markets::MarketId;
use crate::state::reputation::{positives, with_reputation, Reputations};
use crate::state::undo::SettlementUndoEntry;
use crate::state::update::{votes_put, ShareChangeKey, StateUpdateView, Written};
use crate::state::voting::database::VotingView;
use crate::state::voting::system::ConsensusUndoEntry;
use crate::state::voting::types::{
    vote_key, ConsensusResult, Vote, VoteMatrixKey, VotingPeriodId,
};
use crate::state::{Error, State};
use crate::sums::has_rows;
use crate::types::block::Header;
use crate::types::transaction::output::TxOutput;
use crate::types::transaction::{
    DecisionClaimEntry, FilledTransaction, Transaction, TransactionData,
};
use crate::types::{BlockHash, Real};

verus! {

/// A transaction has nothing to do with a market.
pub open spec fn is_simple(tx: Transaction) -> bool {
    match tx.data {
        None => true,
        Some(TransactionData::ClaimDecision(_)) => true,
        Some(TransactionData::SubmitVote { .. }) => true,
        Some(TransactionData::SubmitBallot { .. }) => true,
        Some(TransactionData::TransferReputation { .. }) => true,
        _ => false,
    }
}

pub open spec fn are_simple(txs: Seq<FilledTransaction>) -> bool {
    forall|i: int| 0 <= i < txs.len() ==> is_simple((#[trigger] txs[i]).transaction)
}

/// The claims of a transaction.
pub open spec fn claims_in(tx: Transaction) -> Seq<DecisionClaimEntry> {
    match tx.data {
        Some(TransactionData::ClaimDecision(payload)) => payload.decisions@,
        _ => Seq::empty(),
    }
}

/// The decisions that transactions claim, in their order.
pub open spec fn claimed_in(txs: Seq<FilledTransaction>) -> Seq<DecisionId>
    decreases txs.len(),
{
    if txs.len() == 0 {
        Seq::empty()
    } else {
        claimed_in(txs.drop_last()) + entry_ids(claims_in(txs.last().transaction))
    }
}

/// A transaction casts the vote with a key.
pub open spec fn casts(tx: Transaction, key: VoteMatrixKey) -> bool {
    match tx.data {
        Some(
            TransactionData::SubmitVote { voter, decision_id_bytes, vote_value, voting_period },
        ) => {
            let id = DecisionId(decision_id_bytes);
            key == vote_key(VotingPeriodId((id.period() + 1) as u32), voter, id)
        },
        Some(TransactionData::SubmitBallot { voter, votes, voting_period }) => is_item_key(
            voter,
            votes@,
            key,
        ),
        _ => false,
    }
}

/// One of the transactions casts the vote with a key.
pub open spec fn cast_in(txs: Seq<FilledTransaction>, key: VoteMatrixKey) -> bool {
    exists|i: int| 0 <= i < txs.len() && casts((#[trigger] txs[i]).transaction, key)
}

proof fn lemma_cast(txs: Seq<FilledTransaction>, key: VoteMatrixKey)
    requires
        txs.len() > 0,
    ensures
        cast_in(txs, key) <==> cast_in(txs.drop_last(), key) || casts(
            txs.last().transaction,
            key,
        ),
{
    let front = txs.drop_last();
    if cast_in(front, key) {
        let i = choose|i: int|
            0 <= i < front.len() && casts((#[trigger] front[i]).transaction, key);
        assert(casts(txs[i].transaction, key));
    }
    assert(txs[txs.len() - 1] == txs.last());
    if cast_in(txs, key) {
        let i = choose|i: int| 0 <= i < txs.len() && casts((#[trigger] txs[i]).transaction, key);
        if i < front.len() {
            assert(casts(front[i].transaction, key));
        }
    }
}

/// A transaction takes effect.
#[verifier::opaque]
pub open spec fn takes_effect(
    before: Applying,
    after: Applying,
    tx: FilledTransaction,
    figures: TxFigures,
    timestamp: Option<u64>,
    height: u32,
    miner_fee: u64,
) -> bool {
    tx_applied(before, after, tx, figures, timestamp, height, miner_fee, Ok(false))
}

/// The transactions of a block take effect one after the other, from the first
/// of `steps` to the last.
pub open spec fn all_applied(
    steps: Seq<Applying>,
    txs: Seq<FilledTransaction>,
    figures: Seq<TxFigures>,
    timestamp: Option<u64>,
    height: u32,
    miner_fee: u64,
) -> bool {
    &&& steps.len() == txs.len() + 1
    &&& figures.len() == txs.len()
    &&& forall|i: int|
        0 <= i < txs.len() ==> takes_effect(
            steps[i],
            steps[i + 1],
            #[trigger] txs[i],
            figures[i],
            timestamp,
            height,
            miner_fee,
        )
}

/// No row of reputations is left that is not above zero.
pub open spec fn all_positive(steps: Seq<Applying>) -> bool {
    forall|i: int|
        0 <= i < steps.len() ==> positives((#[trigger] steps[i]).reputation)
            == steps[i].reputation
}

proof fn lemma_fewer(
    steps: Seq<Applying>,
    txs: Seq<FilledTransaction>,
    figures: Seq<TxFigures>,
    timestamp: Option<u64>,
    height: u32,
    miner_fee: u64,
)
    requires
        txs.len() > 0,
        all_applied(steps, txs, figures, timestamp, height, miner_fee),
        are_simple(txs),
    ensures
        all_applied(
            steps.drop_last(),
            txs.drop_last(),
            figures.drop_last(),
            timestamp,
            height,
            miner_fee,
        ),
        are_simple(txs.drop_last()),
        is_simple(txs.last().transaction),
        steps.drop_last().last() == steps[steps.len() - 2],
        steps.drop_last()[0] == steps[0],
        takes_effect(
            steps.drop_last().last(),
            steps.last(),
            txs.last(),
            figures.last(),
            timestamp,
            height,
            miner_fee,
        ),
{
    let front = txs.drop_last();
    assert forall|i: int| 0 <= i < front.len() implies takes_effect(
        steps.drop_last()[i],
        steps.drop_last()[i + 1],
        #[trigger] front[i],
        figures.drop_last()[i],
        timestamp,
        height,
        miner_fee,
    ) by {
        assert(front[i] == txs[i]);
    }
    assert forall|i: int| 0 <= i < front.len() implies is_simple(
        (#[trigger] front[i]).transaction,
    ) by {
        assert(front[i] == txs[i]);
    }
    assert(txs.last() == txs[txs.len() - 1]);
}

/// What a transaction changes at once, and what it adds to the update.
proof fn lemma_effect(
    before: Applying,
    after: Applying,
    tx: FilledTransaction,
    figures: TxFigures,
    timestamp: Option<u64>,
    height: u32,
    miner_fee: u64,
)
    requires
        takes_effect(before, after, tx, figures, timestamp, height, miner_fee),
        is_simple(tx.transaction),
    ensures
        after.markets == before.markets,
        after.update == (StateUpdateView { votes: after.update.votes, ..before.update }),
        match tx.transaction.data {
            Some(TransactionData::ClaimDecision(payload)) => entries_claimed(
                before.decisions,
                payload.decisions@,
                payload.decision_type,
                Claimer { maker: creator_of(tx)->Ok_0, txid: tx.transaction.id(), height },
                figures->Claim_aligned,
            ) == Ok::<DecisionsView, Error>(after.decisions),
            _ => after.decisions == before.decisions,
        },
        if tx.transaction.data is Some && tx.transaction.data->0 is TransferReputation {
            let transfer = transfer_applied(before.reputation, tx, figures->Transfer_0);
            &&& transfer is Ok
            &&& after.reputation == transfer->Ok_0.0
            &&& transfers_at(after.transfers, height) == transfers_at(
                before.transfers,
                height,
            ).push(transfer->Ok_0.1)
        } else {
            after.reputation == before.reputation && after.transfers == before.transfers
        },
        match tx.transaction.data {
            Some(
                TransactionData::SubmitVote { voter, decision_id_bytes, vote_value, voting_period },
            ) => {
                let by = Casting {
                    voter,
                    timestamp: timestamp->0,
                    height,
                    tx_hash: tx.transaction.id().0,
                };
                after.update.votes == before.update.votes.push(
                    vote_on(decision_id_bytes, figures->Vote_0, by),
                )
            },
            Some(TransactionData::SubmitBallot { voter, votes, voting_period }) => {
                let by = Casting {
                    voter,
                    timestamp: timestamp->0,
                    height,
                    tx_hash: tx.transaction.id().0,
                };
                let list = ballot_votes(votes@, voting_period, figures->Ballot_0@, by);
                list is Ok && after.update.votes == before.update.votes + list->Ok_0
            },
            _ => after.update.votes == before.update.votes,
        },
{
    reveal(takes_effect);
}

/// The transactions of a block have nothing to do with markets.
proof fn lemma_no_markets(
    steps: Seq<Applying>,
    txs: Seq<FilledTransaction>,
    figures: Seq<TxFigures>,
    timestamp: Option<u64>,
    height: u32,
    miner_fee: u64,
)
    requires
        all_applied(steps, txs, figures, timestamp, height, miner_fee),
        are_simple(txs),
    ensures
        steps.last().markets == steps[0].markets,
        steps.last().update == (StateUpdateView {
            votes: steps.last().update.votes,
            ..steps[0].update
        }),
    decreases txs.len(),
{
    if txs.len() > 0 {
        lemma_fewer(steps, txs, figures, timestamp, height, miner_fee);
        lemma_no_markets(
            steps.drop_last(),
            txs.drop_last(),
            figures.drop_last(),
            timestamp,
            height,
            miner_fee,
        );
        lemma_effect(
            steps.drop_last().last(),
            steps.last(),
            txs.last(),
            figures.last(),
            timestamp,
            height,
            miner_fee,
        );
    }
}

/// The claims of a block are added.
proof fn lemma_claims_applied(
    steps: Seq<Applying>,
    txs: Seq<FilledTransaction>,
    figures: Seq<TxFigures>,
    timestamp: Option<u64>,
    height: u32,
    miner_fee: u64,
)
    requires
        all_applied(steps, txs, figures, timestamp, height, miner_fee),
        are_simple(txs),
        claimed_in(txs).no_duplicates(),
        forall|i: int|
            0 <= i < claimed_in(txs).len() ==> is_fresh(
                steps[0].decisions,
                #[trigger] claimed_in(txs)[i],
            ),
    ensures
        claims_added(steps[0].decisions, steps.last().decisions, claimed_in(txs), height),
    decreases txs.len(),
{
    if txs.len() == 0 {
        lemma_none_added(steps[0].decisions, height);
    } else {
        let front = txs.drop_last();
        let tx = txs.last();
        lemma_fewer(steps, txs, figures, timestamp, height, miner_fee);
        let some = claimed_in(front);
        let all = claimed_in(txs);
        lemma_joined_sets(some, entry_ids(claims_in(tx.transaction)));
        assert forall|i: int| 0 <= i < some.len() implies is_fresh(
            steps[0].decisions,
            #[trigger] some[i],
        ) by {
            assert(some[i] == all[i]);
        }
        lemma_claims_applied(
            steps.drop_last(),
            front,
            figures.drop_last(),
            timestamp,
            height,
            miner_fee,
        );
        let mid = steps.drop_last().last();
        lemma_effect(mid, steps.last(), tx, figures.last(), timestamp, height, miner_fee);
        match tx.transaction.data {
            Some(TransactionData::ClaimDecision(payload)) => {
                let entries = payload.decisions@;
                assert forall|i: int| 0 <= i < entries.len() implies is_fresh(
                    steps[0].decisions,
                    #[trigger] entry_ids(entries)[i],
                ) by {
                    assert(all[some.len() + i] == entry_ids(entries)[i]);
                }
                claiming_adds_claims(
                    steps[0].decisions,
                    mid.decisions,
                    steps.last().decisions,
                    some,
                    entries,
                    payload.decision_type,
                    Claimer {
                        maker: creator_of(tx)->Ok_0,
                        txid: tx.transaction.id(),
                        height,
                    },
                    figures.last()->Claim_aligned,
                );
            },
            _ => {
                assert(all =~= some);
            },
        }
    }
}

/// The transfers of a block are kept so that they can be taken back.
proof fn lemma_transfers_applied(
    steps: Seq<Applying>,
    txs: Seq<FilledTransaction>,
    figures: Seq<TxFigures>,
    timestamp: Option<u64>,
    height: u32,
    miner_fee: u64,
)
    requires
        all_applied(steps, txs, figures, timestamp, height, miner_fee),
        are_simple(txs),
        all_positive(steps),
        !steps[0].transfers.dom().contains(height),
    ensures
        transfers_undone(
            steps.last().reputation,
            transfers_at(steps.last().transfers, height),
        ) == steps[0].reputation,
    decreases txs.len(),
{
    if txs.len() > 0 {
        let tx = txs.last();
        lemma_fewer(steps, txs, figures, timestamp, height, miner_fee);
        assert forall|i: int| 0 <= i < steps.drop_last().len() implies positives(
            (#[trigger] steps.drop_last()[i]).reputation,
        ) == steps.drop_last()[i].reputation by {
            assert(steps.drop_last()[i] == steps[i]);
        }
        lemma_transfers_applied(
            steps.drop_last(),
            txs.drop_last(),
            figures.drop_last(),
            timestamp,
            height,
            miner_fee,
        );
        let mid = steps.drop_last().last();
        lemma_effect(mid, steps.last(), tx, figures.last(), timestamp, height, miner_fee);
        assert(mid == steps[steps.len() - 2]);
        if tx.transaction.data is Some && tx.transaction.data->0 is TransferReputation {
            let result = figures.last()->Transfer_0;
            undoing_a_transfer(mid.reputation, tx, result);
            let e = transfer_applied(mid.reputation, tx, result)->Ok_0.1;
            let entries = transfers_at(mid.transfers, height);
            lemma_undone_first(steps.last().reputation, entries, e);
        }
    }
}

/// The last transfer is taken back first.
proof fn lemma_undone_first(
    m: Reputations,
    entries: Seq<ReputationTransferUndoEntry>,
    e: ReputationTransferUndoEntry,
)
    ensures
        transfers_undone(m, entries.push(e)) == transfers_undone(
            transfers_undone(m, seq![e]),
            entries,
        ),
{
    assert(seq![e].drop_last() =~= Seq::empty());
    assert(entries.push(e).drop_last() =~= entries);
    let back = with_reputation(
        with_reputation(m, e.sender, e.sender_pre_reputation),
        e.receiver,
        e.receiver_pre_reputation,
    );
    assert(transfers_undone(m, seq![e]) == transfers_undone(back, seq![e].drop_last()));
    assert(transfers_undone(back, Seq::empty()) == back);
}

proof fn lemma_votes_joined(voting: VotingView, a: Seq<Vote>, b: Seq<Vote>)
    ensures
        votes_put(voting, a + b) == votes_put(votes_put(voting, a), b),
    decreases b.len(),
{
    if b.len() == 0 {
        assert(a + b =~= a);
    } else {
        assert((a + b).drop_last() =~= a + b.drop_last());
        lemma_votes_joined(voting, a, b.drop_last());
    }
}

/// Votes that a transaction does not cast are as they were.
spec fn others_kept(a: VotingView, b: VotingView, tx: Transaction) -> bool {
    &&& b == (VotingView { votes: b.votes, ..a })
    &&& forall|key: VoteMatrixKey|
        !casts(tx, key) ==> (#[trigger] b.votes.dom().contains(key) <==> a.votes.dom().contains(
            key,
        )) && b.votes[key] == a.votes[key]
}

/// The votes that a transaction casts change no other votes.
proof fn lemma_votes_of_one(
    voting: VotingView,
    before: Applying,
    after: Applying,
    tx: FilledTransaction,
    figures: TxFigures,
    timestamp: Option<u64>,
    height: u32,
    miner_fee: u64,
)
    requires
        takes_effect(before, after, tx, figures, timestamp, height, miner_fee),
        is_simple(tx.transaction),
    ensures
        others_kept(
            votes_put(voting, before.update.votes),
            votes_put(voting, after.update.votes),
            tx.transaction,
        ),
{
    lemma_effect(before, after, tx, figures, timestamp, height, miner_fee);
    let mid = before.update.votes;
    let last = after.update.votes;
    match tx.transaction.data {
        Some(
            TransactionData::SubmitVote { voter, decision_id_bytes, vote_value, voting_period },
        ) => {
            assert(last.drop_last() =~= mid);
        },
        Some(TransactionData::SubmitBallot { voter, votes, voting_period }) => {
            let by = Casting {
                voter,
                timestamp: timestamp->0,
                height,
                tx_hash: tx.transaction.id().0,
            };
            let values = figures->Ballot_0@;
            let list = ballot_votes(votes@, voting_period, values, by)->Ok_0;
            lemma_votes_joined(voting, mid, list);
            lemma_ballot_put(votes_put(voting, mid), votes@, voting_period, values, by);
        },
        _ => {},
    }
}

/// The votes that the transactions of a block cast change no other votes.
proof fn lemma_votes_gathered(
    voting: VotingView,
    steps: Seq<Applying>,
    txs: Seq<FilledTransaction>,
    figures: Seq<TxFigures>,
    timestamp: Option<u64>,
    height: u32,
    miner_fee: u64,
)
    requires
        all_applied(steps, txs, figures, timestamp, height, miner_fee),
        are_simple(txs),
        steps[0].update.votes.len() == 0,
    ensures
        ({
            let after = votes_put(voting, steps.last().update.votes);
            &&& after == (VotingView { votes: after.votes, ..voting })
            &&& forall|key: VoteMatrixKey|
                !cast_in(txs, key) ==> (#[trigger] after.votes.dom().contains(key)
                    <==> voting.votes.dom().contains(key)) && after.votes[key] == voting.votes[key]
        }),
    decreases txs.len(),
{
    if txs.len() > 0 {
        let front = txs.drop_last();
        let tx = txs.last().transaction;
        lemma_fewer(steps, txs, figures, timestamp, height, miner_fee);
        lemma_votes_gathered(
            voting,
            steps.drop_last(),
            front,
            figures.drop_last(),
            timestamp,
            height,
            miner_fee,
        );
        let mid = steps.drop_last().last();
        lemma_votes_of_one(
            voting,
            mid,
            steps.last(),
            txs.last(),
            figures.last(),
            timestamp,
            height,
            miner_fee,
        );
        let x = votes_put(voting, mid.update.votes);
        let y = votes_put(voting, steps.last().update.votes);
        assert forall|key: VoteMatrixKey| !cast_in(txs, key) implies (
        #[trigger] y.votes.dom().contains(key) <==> voting.votes.dom().contains(key))
            && y.votes[key] == voting.votes[key] by {
            lemma_cast(txs, key);
            assert(!casts(tx, key));
            assert(!cast_in(front, key));
            assert(x.votes.dom().contains(key) <==> voting.votes.dom().contains(key));
        }
    }
}

/// The votes of a transaction are taken back.
pub open spec fn votes_removed(voting: VotingView, tx: Transaction) -> VotingView {
    match tx.data {
        Some(
            TransactionData::SubmitVote { voter, decision_id_bytes, vote_value, voting_period },
        ) => vote_removed(voting, voter, decision_id_bytes),
        Some(TransactionData::SubmitBallot { voter, votes, voting_period }) => ballot_removed(
            voting,
            voter,
            votes@,
        ),
        _ => voting,
    }
}

/// The votes of transactions are taken back, those of the last one first.
pub open spec fn votes_taken_back(voting: VotingView, txs: Seq<FilledTransaction>) -> VotingView
    decreases txs.len(),
{
    if txs.len() == 0 {
        voting
    } else {
        votes_taken_back(votes_removed(voting, txs.last().transaction), txs.drop_last())
    }
}

proof fn lemma_votes_taken_back(voting: VotingView, txs: Seq<FilledTransaction>)
    ensures
        ({
            let back = votes_taken_back(voting, txs);
            &&& back == (VotingView { votes: back.votes, ..voting })
            &&& forall|key: VoteMatrixKey| #[trigger]
                back.votes.dom().contains(key) <==> voting.votes.dom().contains(key) && !cast_in(
                    txs,
                    key,
                )
            &&& forall|key: VoteMatrixKey| #[trigger]
                back.votes.dom().contains(key) ==> back.votes[key] == voting.votes[key]
        }),
    decreases txs.len(),
{
    if txs.len() > 0 {
        let front = txs.drop_last();
        assert forall|key: VoteMatrixKey| cast_in(txs, key) <==> cast_in(front, key) || casts(
            txs.last().transaction,
            key,
        ) by {
            lemma_cast(txs, key);
        }
        match txs.last().transaction.data {
            Some(
                TransactionData::SubmitVote { voter, decision_id_bytes, vote_value, voting_period },
            ) => {
                lemma_votes_taken_back(vote_removed(voting, voter, decision_id_bytes), front);
            },
            Some(TransactionData::SubmitBallot { voter, votes, voting_period }) => {
                lemma_ballot_removed(voting, voter, votes@);
                lemma_votes_taken_back(ballot_removed(voting, voter, votes@), front);
            },
            _ => {
                lemma_votes_taken_back(voting, front);
            },
        }
    }
}

/// The claims of transactions are taken back, those of the last one first.
pub open spec fn claims_taken_back(view: DecisionsView, txs: Seq<FilledTransaction>) -> DecisionsView
    decreases txs.len(),
{
    if txs.len() == 0 {
        view
    } else {
        claims_taken_back(
            entries_unclaimed(view, claims_in(txs.last().transaction)),
            txs.drop_last(),
        )
    }
}

proof fn lemma_joined_sets(a: Seq<DecisionId>, b: Seq<DecisionId>)
    ensures
        (a + b).to_set() == a.to_set().union(b.to_set()),
        (a + b).no_duplicates() ==> a.no_duplicates() && b.no_duplicates() && a.to_set().disjoint(
            b.to_set(),
        ),
{
    let all = a + b;
    assert forall|x: DecisionId| all.contains(x) <==> a.contains(x) || b.contains(x) by {
        if a.contains(x) {
            assert(all[a.index_of(x)] == x);
        }
        if b.contains(x) {
            assert(all[a.len() + b.index_of(x)] == x);
        }
        if all.contains(x) {
            let i = all.index_of(x);
            if i < a.len() {
                assert(a[i] == x);
            } else {
                assert(b[i - a.len()] == x);
            }
        }
    }
    assert(all.to_set() =~= a.to_set().union(b.to_set()));
    if all.no_duplicates() {
        assert forall|i: int, j: int|
            0 <= i < a.len() && 0 <= j < a.len() && i != j implies a[i] != a[j] by {
            assert(all[i] == a[i] && all[j] == a[j]);
        }
        assert forall|i: int, j: int|
            0 <= i < b.len() && 0 <= j < b.len() && i != j implies b[i] != b[j] by {
            assert(all[a.len() + i] == b[i] && all[a.len() + j] == b[j]);
        }
        assert forall|x: DecisionId| !(a.to_set().contains(x) && b.to_set().contains(x)) by {
            if a.contains(x) && b.contains(x) {
                let i = a.index_of(x);
                let j = b.index_of(x);
                assert(all[i] == x && all[a.len() + j] == x);
            }
        }
        assert(a.to_set().disjoint(b.to_set()));
    }
}

proof fn lemma_claims_taken_back(
    view: DecisionsView,
    periods: Map<u32, PeriodEntries>,
    ids: Set<DecisionId>,
    gone: Set<DecisionId>,
    txs: Seq<FilledTransaction>,
)
    requires
        can_go(periods, ids),
        gone.subset_of(ids),
        view.periods == without_ids(periods, gone),
        claimed_in(txs).no_duplicates(),
        claimed_in(txs).to_set().subset_of(ids),
        claimed_in(txs).to_set().disjoint(gone),
    ensures
        claims_taken_back(view, txs) == (DecisionsView {
            periods: without_ids(periods, gone.union(claimed_in(txs).to_set())),
            ..view
        }),
    decreases txs.len(),
{
    if txs.len() == 0 {
        assert(gone.union(claimed_in(txs).to_set()) =~= gone);
    } else {
        let front = txs.drop_last();
        let entries = claims_in(txs.last().transaction);
        let some = claimed_in(front);
        let rest = entry_ids(entries);
        lemma_joined_sets(some, rest);
        unclaiming_removes_claims(view, periods, ids, gone, entries);
        let next = entries_unclaimed(view, entries);
        lemma_claims_taken_back(next, periods, ids, gone.union(rest.to_set()), front);
        assert(gone.union(rest.to_set()).union(some.to_set()) =~= gone.union(
            claimed_in(txs).to_set(),
        ));
    }
}

/// What a transaction did, besides moving coins, is undone.
#[verifier::opaque]
pub open spec fn effect_undone(at: Reverting, tx: FilledTransaction, height: u32) -> Result<
    Reverting,
    Error,
> {
    data_reverted(at, tx, UndoFigures::Nothing, height)
}

proof fn lemma_effect_undone(at: Reverting, tx: FilledTransaction, height: u32)
    requires
        is_simple(tx.transaction),
    ensures
        effect_undone(at, tx, height) == Ok::<Reverting, Error>(
            Reverting {
                decisions: entries_unclaimed(at.decisions, claims_in(tx.transaction)),
                voting: votes_removed(at.voting, tx.transaction),
                ..at
            },
        ),
{
    reveal(effect_undone);
}

/// Transactions are taken back, the last one first: what they did, and their
/// coins. `None` where one of them is not noted as the spender of its inputs.
pub open spec fn all_taken_back(
    at: Reverting,
    txs: Seq<FilledTransaction>,
    height: u32,
) -> Option<Reverting>
    decreases txs.len(),
{
    if txs.len() == 0 {
        Some(at)
    } else {
        let tx = txs.last().transaction;
        if !spent_by(at.ledger.stxos, tx.inputs@, tx.id_bytes()) || !all_spent(
            at.ledger.stxos,
            tx.inputs@,
        ) {
            None
        } else {
            match effect_undone(at, txs.last(), height) {
                Err(_) => None,
                Ok(after) => match coins_moved_back(after.ledger, tx) {
                    Err(_) => None,
                    Ok(ledger) => all_taken_back(
                        Reverting { ledger, ..after },
                        txs.drop_last(),
                        height,
                    ),
                },
            }
        }
    }
}

/// Taking transactions back moves their coins back, and takes their votes and
/// claims back.
proof fn lemma_taken_back(at: Reverting, txs: Seq<FilledTransaction>, height: u32)
    requires
        are_simple(txs),
    ensures
        all_taken_back(at, txs, height) == match plain_taken_back(at.ledger, txs) {
            None => None,
            Some(ledger) => Some(
                Reverting {
                    ledger,
                    decisions: claims_taken_back(at.decisions, txs),
                    voting: votes_taken_back(at.voting, txs),
                    ..at
                },
            ),
        },
    decreases txs.len(),
{
    if txs.len() > 0 {
        let front = txs.drop_last();
        let tx = txs.last().transaction;
        assert forall|i: int| 0 <= i < front.len() implies is_simple(
            (#[trigger] front[i]).transaction,
        ) by {
            assert(front[i] == txs[i]);
        }
        assert(txs.last() == txs[txs.len() - 1]);
        lemma_effect_undone(at, txs.last(), height);
        let after = effect_undone(at, txs.last(), height)->Ok_0;
        assert(after.ledger == at.ledger);
        if coins_moved_back(at.ledger, tx) is Ok {
            let ledger = coins_moved_back(at.ledger, tx)->Ok_0;
            lemma_taken_back(Reverting { ledger, ..after }, front, height);
        }
    }
}

/// What a transaction did is undone in the same way whatever it is said to have
/// spent.
pub proof fn undoing_looks_at_data_only(
    at: Reverting,
    a: FilledTransaction,
    b: FilledTransaction,
    figures: UndoFigures,
    height: u32,
)
    requires
        a.transaction == b.transaction,
        is_simple(a.transaction),
    ensures
        data_reverted(at, a, figures, height) == effect_undone(at, b, height),
{
    reveal(effect_undone);
}

pub open spec fn applying(state: State, update: StateUpdateView) -> Applying {
    Applying {
        decisions: state.decisions@,
        markets: state.markets@,
        reputation: state.reputation@,
        transfers: transfers_view(state.reputation_transfer_undo@),
        update,
    }
}

/// Transactions that took effect changed these parts of the state and no others.
pub open spec fn is_applied(opened: State, applied: State) -> bool {
    applied == (State {
        decisions: applied.decisions,
        markets: applied.markets,
        reputation: applied.reputation,
        reputation_transfer_undo: applied.reputation_transfer_undo,
        ..opened
    })
}

/// Disconnecting a block of transactions that move coins, claim decisions, vote,
/// or transfer reputation takes the state back to where it was before the block
/// was opened: the coins, the markets, the votes, the reputations, the decisions,
/// the tip and its height. A claimed decision was fresh, no vote replaced
/// another one, and each period was reckoned for the first time. What is left is
/// a row for each claimed decision that says that nothing happened to it, and
/// what is forgotten is how a coin that the block spent had been spent before.
/// `undone` is the state without what was done after the transactions, and
/// `taken_back` the one in which they, too, have been taken back.
pub proof fn disconnecting_undoes_a_block(
    before: State,
    opened: State,
    applied: State,
    written: State,
    reckoned: Standing,
    closed: State,
    undone: State,
    taken_back: State,
    header: Header,
    block_hash: BlockHash,
    coinbase: Seq<TxOutput>,
    txs: Seq<FilledTransaction>,
    figures: Seq<TxFigures>,
    steps: Seq<Applying>,
    addresses: Map<MarketId, FundsAddresses>,
    result: Written,
    pricing: Map<u32, PeriodPricing>,
    results: Seq<ConsensusResult>,
    anchors: Seq<Option<Real>>,
    records: Seq<ConsensusUndoEntry>,
    settlements: Seq<SettlementUndoEntry>,
    mainchain_timestamp: u64,
    current_period: u32,
    height: u32,
    coinbase_value: u64,
    miner_fee: u64,
)
    requires
        height > 0,
        header.prev_side_hash is Some,
        before.tip == header.prev_side_hash,
        before.height == Some((height - 1) as u32),
        nothing_kept(before, height),
        before.ledger@.index_in_step(),
        has_rows(before.decisions@.pricing),
        has_rows(closed.decisions@.histories),
        happened_under(before.decisions@.histories, height),
        !before.decisions@.pricing_undo.dom().contains(height),
        current_period + FUTURE_PERIODS < u32::MAX,
        highest_or_zero(before.decisions@.periods) < u32::MAX,
        coinbase.len() <= u32::MAX,
        coinbase_free(before.ledger@, header.merkle_root, coinbase.len() as int),
        are_simple(txs),
        have_own_ids(txs),
        moves_fit(coinbase_made(before.ledger@, header.merkle_root, coinbase), txs),
        claimed_in(txs).no_duplicates(),
        forall|i: int|
            0 <= i < claimed_in(txs).len() ==> is_fresh(
                before.decisions@,
                #[trigger] claimed_in(txs)[i],
            ),
        forall|key: VoteMatrixKey| #[trigger]
            cast_in(txs, key) ==> !before.voting@.votes.dom().contains(key),
        block_opened(
            opened_parts(before),
            header,
            coinbase,
            mainchain_timestamp,
            current_period,
            height,
        ) == Ok::<Opened, Error>(opened_parts(opened)),
        is_opened(before, opened),
        all_applied(steps, txs, figures, opened.mainchain_timestamp, height, miner_fee),
        all_positive(steps),
        steps[0] == applying(opened, StateUpdateView::empty()),
        steps.last() == applying(applied, steps.last().update),
        is_applied(opened, applied),
        transactions_written(
            applied,
            steps.last().update,
            addresses,
            coinbase_value,
            txs,
            Seq::empty(),
            height,
            miner_fee,
        ) == Ok::<Written, Error>(result),
        is_written(applied, written, result),
        all_reckoned(
            to_reckon(written, pricing, height, current_period),
            results,
            anchors,
            records,
            height,
        ) == Some(reckoned),
        is_closed(written, closed, reckoned, records, settlements, block_hash, height),
        undone == (State {
            ledger: undone.ledger,
            markets: undone.markets,
            voting: undone.voting,
            reputation: undone.reputation,
            settlement_undo: undone.settlement_undo,
            consensus_undo: undone.consensus_undo,
            consolidation_undo: undone.consolidation_undo,
            ..closed
        }),
        end_undone(closed, height) is Ok ==> {
            let end = end_undone(closed, height)->Ok_0;
            &&& undone.ledger@ == end.ledger
            &&& undone.markets@ == end.markets
            &&& undone.voting@ == end.voting
            &&& undone.reputation@ == end.reputation
        },
        taken_back == (State {
            ledger: taken_back.ledger,
            markets: taken_back.markets,
            decisions: taken_back.decisions,
            voting: taken_back.voting,
            ..undone
        }),
        all_taken_back(reverting_parts(undone, None), txs, height) is Some ==> reverting_parts(
            taken_back,
            None,
        ) == all_taken_back(reverting_parts(undone, None), txs, height)->0,
    ensures
        tip_problem(closed.tip, closed.height, header, block_hash, header.merkle_root) is None,
        end_undone(closed, height) is Ok,
        skipped_at(closed, height) == Seq::<u32>::empty(),
        all_taken_back(reverting_parts(undone, None), txs, height) is Some,
        taken_back.voting@ == before.voting@,
        start_undone(
            taken_back,
            header,
            coinbase.len(),
            Seq::<TradeShareDelta>::empty(),
            height,
        ) is Ok,
        ({
            let done = start_undone(
                taken_back,
                header,
                coinbase.len(),
                Seq::<TradeShareDelta>::empty(),
                height,
            )->Ok_0;
            &&& done.ledger == forgetting(before.ledger@, inputs_of(txs))
            &&& before.ledger@.stxos.dom().disjoint(inputs_of(txs)) ==> done.ledger
                == before.ledger@
            &&& done.markets == before.markets@
            &&& done.reputation == before.reputation@
            &&& done.decisions == (DecisionsView {
                histories: with_blank(before.decisions@.histories, claimed_in(txs).to_set()),
                ..before.decisions@
            })
            &&& done.tip == before.tip
            &&& done.height == before.height
        }),
{
    let ids = claimed_in(txs);
    let timestamp = opened.mainchain_timestamp;
    let update = steps.last().update;
    assert forall|i: int| 0 <= i < ids.len() implies is_fresh(
        steps[0].decisions,
        #[trigger] ids[i],
    ) by {
        lemma_still_fresh(
            before.decisions@,
            opened.decisions@,
            height,
            current_period,
            ids[i],
        );
    }
    lemma_no_markets(steps, txs, figures, timestamp, height, miner_fee);
    lemma_claims_applied(steps, txs, figures, timestamp, height, miner_fee);
    lemma_transfers_applied(steps, txs, figures, timestamp, height, miner_fee);
    lemma_votes_gathered(opened.voting@, steps, txs, figures, timestamp, height, miner_fee);
    lemma_nothing_gathered(height, miner_fee);
    lemma_no_rows::<ShareChangeKey, i64>();
    assert(result.undo is None);
    assert(result.markets == opened.markets@);
    assert(result.voting == votes_put(opened.voting@, update.votes));
    lemma_coinbase_back(before.ledger@, header.merkle_root, coinbase, inputs_of(txs));
    taking_back_gives_back_coins(opened.ledger@, txs);
    let start = to_reckon(written, pricing, height, current_period);
    assert(steps.last() == steps[steps.len() - 1]);
    reverting_undoes_all_reckonings(start, results, anchors, records, height, reckoned);
    assert(end_undone(closed, height) is Ok);
    assert(undone.ledger@ == written.ledger@);
    assert(undone.markets@ == written.markets@);
    assert(undone.voting@ == written.voting@ && undone.reputation@ == written.reputation@);
    let at = reverting_parts(undone, None);
    lemma_taken_back(at, txs, height);
    lemma_votes_taken_back(at.voting, txs);
    assert(taken_back.voting@.votes =~= before.voting@.votes);
    let after = closed.decisions@;
    let back = DecisionsView { periods: without_ids(after.periods, ids.to_set()), ..after };
    disconnecting_undoes_claiming(
        before.decisions@,
        opened.decisions@,
        applied.decisions@,
        after,
        back,
        ids,
        before.minting_undo@,
        height,
        current_period,
    );
    assert(without_ids(after.periods, Set::empty()) =~= after.periods) by {
        lemma_none_gone(after.periods);
    }
    lemma_claims_taken_back(after, after.periods, ids.to_set(), Set::empty(), txs);
    assert(Set::<DecisionId>::empty().union(ids.to_set()) =~= ids.to_set());
    assert(taken_back.decisions@ == back);
    assert(taken_back.ledger@ == forgetting(opened.ledger@, inputs_of(txs)));
}

proof fn lemma_none_gone(periods: Map<u32, PeriodEntries>)
    ensures
        without_ids(periods, Set::empty()) == periods,
{
    let same = without_ids(periods, Set::empty());
    assert forall|p: u32| periods.dom().contains(p) implies #[trigger] same[p] == periods[p] by {
        assert(same[p] =~= periods[p]);
    }
    assert(same =~= periods);
}

} // verus!
