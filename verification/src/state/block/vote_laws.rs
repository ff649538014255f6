//! What holds of votes, ballots and transfers of reputation.

use vstd::prelude::*;

use crate::state::block::votes::{
    ballot_applied, ballot_votes, transfer_applied, vote_applied, vote_removed, Casting,
    ReputationTransferUndoEntry, TransferResult,
};
use crate::state::decisions::DecisionId;
use crate::state::reputation::{reputation_of, Reputations};
use crate::state::update::{votes_put, StateUpdateView};
use crate::state::voting::database::VotingView;
use crate::state::voting::types::{Vote, VoteMatrixKey, VotingPeriodId};
use crate::state::Error;
use crate::types::transaction::{BallotItem, FilledTransaction, TransactionData};
use crate::types::{Address, Real};

verus! {

/// The key under which a vote is kept.
pub open spec fn is_key_of(key: VoteMatrixKey, vote: Vote) -> bool {
    &&& key.period_id == vote.period_id
    &&& key.voter_address == vote.voter_address
    &&& key.decision_id == vote.decision_id
}

proof fn lemma_ballot_votes(
    items: Seq<BallotItem>,
    voting_period: u32,
    values: Seq<Option<Real>>,
    by: Casting,
    list: Seq<Vote>,
)
    requires
        ballot_votes(items, voting_period, values, by) == Ok::<Seq<Vote>, Error>(list),
    ensures
        list.len() == items.len(),
        forall|i: int| #![trigger list[i]]
            0 <= i < items.len() ==> {
                &&& list[i].decision_id.0 == items[i].decision_id_bytes
                &&& list[i].voter_address == by.voter
                &&& list[i].period_id == VotingPeriodId(voting_period)
                &&& list[i].value == if i < values.len() {
                    values[i]
                } else {
                    None
                }
                &&& list[i].timestamp == by.timestamp
                &&& list[i].block_height == by.height
                &&& list[i].tx_hash == by.tx_hash
            },
    decreases items.len(),
{
    if items.len() > 0 {
        let front = items.drop_last();
        let before = ballot_votes(front, voting_period, values, by)->Ok_0;
        lemma_ballot_votes(front, voting_period, values, by, before);
        assert forall|i: int| #![trigger list[i]] 0 <= i < items.len() implies {
            &&& list[i].decision_id.0 == items[i].decision_id_bytes
            &&& list[i].voter_address == by.voter
            &&& list[i].period_id == VotingPeriodId(voting_period)
            &&& list[i].value == if i < values.len() {
                values[i]
            } else {
                None
            }
            &&& list[i].timestamp == by.timestamp
            &&& list[i].block_height == by.height
            &&& list[i].tx_hash == by.tx_hash
        } by {
            if i < front.len() {
                assert(list[i] == before[i]);
                assert(front[i] == items[i]);
            }
        }
    }
}

/// A ballot casts as many votes as it has items: for each item one, by the voter of
/// the ballot, on the decision of the item and with the value of that item.
pub proof fn ballots_cast_each_vote(
    update: StateUpdateView,
    tx: FilledTransaction,
    timestamp: Option<u64>,
    height: u32,
    values: Seq<Option<Real>>,
    next: StateUpdateView,
)
    requires
        ballot_applied(update, tx, timestamp, height, values) == Ok::<StateUpdateView, Error>(next),
    ensures
        tx.transaction.data is Some,
        tx.transaction.data->0 is SubmitBallot,
        next == (StateUpdateView { votes: next.votes, ..update }),
        ({
            let items = tx.transaction.data->0->SubmitBallot_votes@;
            let n = update.votes.len();
            &&& next.votes.len() == n + items.len()
            &&& forall|i: int| 0 <= i < n ==> (#[trigger] next.votes[i]) == update.votes[i]
            &&& forall|i: int| #![trigger next.votes[n + i]]
                0 <= i < items.len() ==> {
                    &&& next.votes[n + i].decision_id.0 == items[i].decision_id_bytes
                    &&& next.votes[n + i].voter_address
                        == tx.transaction.data->0->SubmitBallot_voter
                    &&& next.votes[n + i].period_id == VotingPeriodId(
                        tx.transaction.data->0->SubmitBallot_voting_period,
                    )
                    &&& i < values.len() ==> next.votes[n + i].value == values[i]
                    &&& i >= values.len() ==> next.votes[n + i].value is None
                    &&& timestamp == Some(next.votes[n + i].timestamp)
                    &&& next.votes[n + i].block_height == height
                    &&& next.votes[n + i].tx_hash == tx.transaction.id().0
                }
        }),
{
    match tx.transaction.data {
        Some(TransactionData::SubmitBallot { voter, votes, voting_period }) => {
            let by = Casting {
                voter,
                timestamp: timestamp->0,
                height,
                tx_hash: tx.transaction.id().0,
            };
            let list = ballot_votes(votes@, voting_period, values, by)->Ok_0;
            lemma_ballot_votes(votes@, voting_period, values, by, list);
            let n = update.votes.len();
            assert(next.votes == update.votes + list);
            assert forall|i: int| #![trigger next.votes[n + i]] 0 <= i < votes@.len() implies {
                &&& next.votes[n + i].decision_id.0 == votes@[i].decision_id_bytes
                &&& next.votes[n + i].voter_address == voter
                &&& next.votes[n + i].period_id == VotingPeriodId(voting_period)
                &&& i < values.len() ==> next.votes[n + i].value == values[i]
                &&& i >= values.len() ==> next.votes[n + i].value is None
                &&& timestamp == Some(next.votes[n + i].timestamp)
                &&& next.votes[n + i].block_height == height
                &&& next.votes[n + i].tx_hash == tx.transaction.id().0
            } by {
                assert(next.votes[n + i] == list[i]);
            }
        },
        _ => {},
    }
}

/// A ballot is cast only in the period in which its decisions are voted on: the one
/// after theirs.
pub proof fn ballots_are_cast_in_their_period(
    update: StateUpdateView,
    tx: FilledTransaction,
    timestamp: Option<u64>,
    height: u32,
    values: Seq<Option<Real>>,
    i: int,
)
    requires
        ballot_applied(update, tx, timestamp, height, values) is Ok,
        0 <= i < tx.transaction.data->0->SubmitBallot_votes@.len(),
    ensures
        tx.transaction.data->0->SubmitBallot_voting_period == DecisionId(
            tx.transaction.data->0->SubmitBallot_votes@[i].decision_id_bytes,
        ).period() + 1,
{
    match tx.transaction.data {
        Some(TransactionData::SubmitBallot { voter, votes, voting_period }) => {
            let by = Casting {
                voter,
                timestamp: timestamp->0,
                height,
                tx_hash: tx.transaction.id().0,
            };
            lemma_ballot_periods(votes@, voting_period, values, by, i);
        },
        _ => {},
    }
}

proof fn lemma_ballot_periods(
    items: Seq<BallotItem>,
    voting_period: u32,
    values: Seq<Option<Real>>,
    by: Casting,
    i: int,
)
    requires
        ballot_votes(items, voting_period, values, by) is Ok,
        0 <= i < items.len(),
    ensures
        DecisionId(items[i].decision_id_bytes).period() + 1 == voting_period,
    decreases items.len(),
{
    if i < items.len() - 1 {
        lemma_ballot_periods(items.drop_last(), voting_period, values, by, i);
    }
}

/// A vote is cast by its voter, on its decision, in the period after that of the
/// decision, and with the value that was worked out for it. Nothing else changes.
pub proof fn votes_are_cast_as_given(
    update: StateUpdateView,
    tx: FilledTransaction,
    timestamp: Option<u64>,
    height: u32,
    value: Option<Real>,
    next: StateUpdateView,
)
    requires
        vote_applied(update, tx, timestamp, height, value) == Ok::<StateUpdateView, Error>(next),
    ensures
        tx.transaction.data is Some,
        tx.transaction.data->0 is SubmitVote,
        next == (StateUpdateView { votes: next.votes, ..update }),
        next.votes.len() == update.votes.len() + 1,
        next.votes.drop_last() == update.votes,
        next.votes.last().voter_address == tx.transaction.data->0->SubmitVote_voter,
        next.votes.last().decision_id.0 == tx.transaction.data->0->SubmitVote_decision_id_bytes,
        next.votes.last().period_id.0 == tx.transaction.data->0->SubmitVote_voting_period,
        next.votes.last().period_id.0 == next.votes.last().decision_id.period() + 1,
        next.votes.last().value == value,
        timestamp == Some(next.votes.last().timestamp),
        next.votes.last().block_height == height,
        next.votes.last().tx_hash == tx.transaction.id().0,
{
    assert(next.votes.drop_last() =~= update.votes);
}

/// A vote that is cast in the period after that of its decision is taken.
pub proof fn votes_in_their_period_are_taken(
    update: StateUpdateView,
    tx: FilledTransaction,
    timestamp: u64,
    height: u32,
    value: Option<Real>,
)
    requires
        tx.transaction.data is Some,
        tx.transaction.data->0 is SubmitVote,
        tx.transaction.data->0->SubmitVote_voting_period == DecisionId(
            tx.transaction.data->0->SubmitVote_decision_id_bytes,
        ).period() + 1,
    ensures
        vote_applied(update, tx, Some(timestamp), height, value) is Ok,
{
}

/// What is kept of a decision's votes is the last vote of each voter, with its
/// value; the other votes stay.
pub proof fn the_last_vote_counts(v: VotingView, votes: Seq<Vote>, key: VoteMatrixKey)
    ensures
        (forall|i: int| 0 <= i < votes.len() ==> !is_key_of(key, #[trigger] votes[i])) ==> {
            &&& votes_put(v, votes).votes.dom().contains(key) <==> v.votes.dom().contains(key)
            &&& votes_put(v, votes).votes[key] == v.votes[key]
        },
        forall|i: int|
            0 <= i < votes.len() && is_key_of(key, #[trigger] votes[i]) && (forall|j: int|
                i < j < votes.len() ==> !is_key_of(key, #[trigger] votes[j])) ==> {
                &&& votes_put(v, votes).votes.dom().contains(key)
                &&& votes_put(v, votes).votes[key].value == votes[i].value
                &&& votes_put(v, votes).votes[key].timestamp == votes[i].timestamp
                &&& votes_put(v, votes).votes[key].block_height == votes[i].block_height
            },
        votes_put(v, votes).ballots == v.ballots,
        votes_put(v, votes).outcomes == v.outcomes,
        votes_put(v, votes).stats == v.stats,
    decreases votes.len(),
{
    if votes.len() > 0 {
        let front = votes.drop_last();
        let last = votes.last();
        the_last_vote_counts(v, front, key);
        assert(votes[votes.len() - 1] == last);
        if forall|i: int| 0 <= i < votes.len() ==> !is_key_of(key, #[trigger] votes[i]) {
            assert forall|i: int| 0 <= i < front.len() implies !is_key_of(
                key,
                #[trigger] front[i],
            ) by {
                assert(front[i] == votes[i]);
            }
            assert(!is_key_of(key, last));
        }
        assert forall|i: int|
            0 <= i < votes.len() && is_key_of(key, #[trigger] votes[i]) && (forall|j: int|
                i < j < votes.len() ==> !is_key_of(key, #[trigger] votes[j])) implies {
            &&& votes_put(v, votes).votes.dom().contains(key)
            &&& votes_put(v, votes).votes[key].value == votes[i].value
            &&& votes_put(v, votes).votes[key].timestamp == votes[i].timestamp
            &&& votes_put(v, votes).votes[key].block_height == votes[i].block_height
        } by {
            if i < front.len() {
                assert(front[i] == votes[i]);
                assert(!is_key_of(key, votes[votes.len() - 1]));
                assert forall|j: int| i < j < front.len() implies !is_key_of(
                    key,
                    #[trigger] front[j],
                ) by {
                    assert(front[j] == votes[j]);
                }
            }
        }
    }
}

/// Taking a vote back removes the vote of that voter on that decision, and no
/// other.
pub proof fn votes_are_taken_back_alone(
    voting: VotingView,
    voter: Address,
    id_bytes: [u8; 3],
    key: VoteMatrixKey,
)
    ensures
        ({
            let own = key.voter_address == voter && key.decision_id.0 == id_bytes
                && key.period_id.0 == DecisionId(id_bytes).period() + 1;
            let after = vote_removed(voting, voter, id_bytes);
            &&& own ==> !after.votes.dom().contains(key)
            &&& !own ==> (after.votes.dom().contains(key) <==> voting.votes.dom().contains(key))
            &&& !own && voting.votes.dom().contains(key) ==> after.votes[key] == voting.votes[key]
            &&& after == (VotingView { votes: after.votes, ..voting })
        }),
{
    assert(DecisionId(id_bytes).0 == id_bytes);
}

/// A transfer leaves the sender and the receiver with what was worked out for them,
/// and nobody else is touched. The sender has at least the amount. What undoes it
/// tells what both had.
pub proof fn transfers_move_reputation(
    m: Reputations,
    tx: FilledTransaction,
    result: TransferResult,
    after: Reputations,
    undo: ReputationTransferUndoEntry,
    a: Address,
)
    requires
        transfer_applied(m, tx, result) == Ok::<
            (Reputations, ReputationTransferUndoEntry),
            Error,
        >((after, undo)),
    ensures
        tx.transaction.data is Some,
        tx.transaction.data->0 is TransferReputation,
        ({
            let sender = tx.transaction.data->0->TransferReputation_sender;
            let dest = tx.transaction.data->0->TransferReputation_dest;
            let amount = tx.transaction.data->0->TransferReputation_amount;
            &&& !(reputation_of(m, sender).less(amount))
            &&& 0 < result.receiver_total.rank() && !result.receiver_total.spec_is_nan()
                ==> after.dom().contains(dest) && after[dest] == result.receiver_total
            &&& sender != dest && 0 < result.sender_left.rank()
                && !result.sender_left.spec_is_nan() ==> after.dom().contains(sender)
                && after[sender] == result.sender_left
            &&& sender != dest && result.sender_left.rank() <= 0
                && !result.sender_left.spec_is_nan() ==> !after.dom().contains(sender)
            &&& a != sender && a != dest ==> (after.dom().contains(a) <==> m.dom().contains(a))
                && after[a] == m[a]
            &&& undo.sender == sender
            &&& undo.receiver == dest
            &&& m.dom().contains(sender) ==> undo.sender_pre_reputation == m[sender]
            &&& !m.dom().contains(sender) ==> undo.sender_pre_reputation.bits == 0
            &&& m.dom().contains(dest) ==> undo.receiver_pre_reputation == m[dest]
            &&& !m.dom().contains(dest) ==> undo.receiver_pre_reputation.bits == 0
        }),
{
}

/// Nobody transfers more reputation than they have.
pub proof fn transfers_need_reputation(
    m: Reputations,
    tx: FilledTransaction,
    result: TransferResult,
)
    requires
        tx.transaction.data is Some,
        tx.transaction.data->0 is TransferReputation,
        ({
            let sender = tx.transaction.data->0->TransferReputation_sender;
            let amount = tx.transaction.data->0->TransferReputation_amount;
            &&& m.dom().contains(sender) ==> m[sender].less(amount)
            &&& !m.dom().contains(sender) ==> 0 < amount.rank() && !amount.spec_is_nan()
        }),
    ensures
        transfer_applied(m, tx, result) is Err,
{
}

/// Who has enough reputation can transfer it.
pub proof fn covered_transfers_are_made(
    m: Reputations,
    tx: FilledTransaction,
    result: TransferResult,
)
    requires
        tx.transaction.data is Some,
        tx.transaction.data->0 is TransferReputation,
        ({
            let sender = tx.transaction.data->0->TransferReputation_sender;
            m.dom().contains(sender) && !(m[sender].less(
                tx.transaction.data->0->TransferReputation_amount,
            ))
        }),
    ensures
        transfer_applied(m, tx, result) is Ok,
{
}

} // verus!
