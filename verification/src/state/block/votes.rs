//! Transactions that vote, and those that hand over reputation.

use vstd::prelude::*;

use crate::state::decisions::types::DecisionId;
use crate::state::reputation::{
    positive, positives, reputation_of, with_reputation, ReputationDbs, Reputations,
};
use crate::state::update::{votes_put, StateUpdate, StateUpdateView};
use crate::state::voting::database::{VotingDatabases, VotingView};
use crate::state::voting::types::{vote_key, Vote, VoteMatrixKey, VotingPeriodId};
use crate::state::{Error, Reason};
use crate::types::encoding::Encode;
use crate::types::transaction::{BallotItem, FilledTransaction, TransactionData};
use crate::types::{Address, Real};

verus! {

/// When, where and by whom votes are cast.
pub struct Casting {
    pub voter: Address,
    pub timestamp: u64,
    pub height: u32,
    pub tx_hash: [u8; 32],
}

/// A vote on a decision, in the period in which it is voted on. `value` is the
/// vote on the scale of the decision, or none for an abstention.
pub open spec fn vote_on(id_bytes: [u8; 3], value: Option<Real>, by: Casting) -> Vote {
    let decision_id = DecisionId(id_bytes);
    Vote {
        voter_address: by.voter,
        period_id: VotingPeriodId((decision_id.period() + 1) as u32),
        decision_id,
        value,
        timestamp: by.timestamp,
        block_height: by.height,
        tx_hash: by.tx_hash,
    }
}

/// What a vote makes of an update.
pub open spec fn vote_applied(
    update: StateUpdateView,
    tx: FilledTransaction,
    timestamp: Option<u64>,
    height: u32,
    value: Option<Real>,
) -> Result<StateUpdateView, Error> {
    match tx.transaction.data {
        Some(
            TransactionData::SubmitVote { voter, decision_id_bytes, vote_value, voting_period },
        ) => if voting_period != DecisionId(decision_id_bytes).period() + 1 {
            Err(Error::InvalidTransaction { reason: Reason::VotePeriodMismatch {
                decision_id: DecisionId(decision_id_bytes),
                claim_period: DecisionId(decision_id_bytes).period(),
                voting_period: (DecisionId(decision_id_bytes).period() + 1) as u32,
                given: voting_period,
            } })
        } else {
            match timestamp {
                None => Err(
                    Error::InvalidTransaction {
                        reason: Reason::Text("No mainchain timestamp available"),
                    },
                ),
                Some(timestamp) => Ok(
                    StateUpdateView {
                        votes: update.votes.push(
                            vote_on(
                                decision_id_bytes,
                                value,
                                Casting {
                                    voter,
                                    timestamp,
                                    height,
                                    tx_hash: tx.transaction.id().0,
                                },
                            ),
                        ),
                        ..update
                    },
                ),
            }
        },
        _ => Err(
            Error::InvalidTransaction { reason: Reason::Text("Not a vote submission transaction") },
        ),
    }
}

/// Writes a vote into an update. `timestamp` is that of the mainchain, and
/// `value` the vote on the scale of the decision.
pub fn apply_submit_vote(
    filled_tx: &FilledTransaction,
    state_update: &mut StateUpdate,
    timestamp: Option<u64>,
    height: u32,
    value: Option<Real>,
) -> (r: Result<(), Error>)
    requires
        filled_tx.transaction.encodable(),
    ensures
        match r {
            Ok(()) => vote_applied(old(state_update)@, *filled_tx, timestamp, height, value)
                == Ok::<StateUpdateView, Error>(final(state_update)@),
            Err(e) => vote_applied(old(state_update)@, *filled_tx, timestamp, height, value)
                == Err::<StateUpdateView, Error>(e),
        },
{
    let vote_data = match filled_tx.submit_vote() {
        None => return Err(
            Error::InvalidTransaction { reason: Reason::Text("Not a vote submission transaction") },
        ),
        Some(vote_data) => vote_data,
    };
    let decision_id = DecisionId(vote_data.decision_id_bytes);
    let voting_period: u32 = decision_id.voting_period();
    if vote_data.voting_period != voting_period {
        return Err(Error::InvalidTransaction { reason: Reason::VotePeriodMismatch {
                decision_id,
                claim_period: decision_id.period_index(),
                voting_period,
                given: vote_data.voting_period,
            } });
    }
    let timestamp: u64 = match timestamp {
        None => return Err(
            Error::InvalidTransaction { reason: Reason::Text("No mainchain timestamp available") },
        ),
        Some(timestamp) => timestamp,
    };
    state_update.add_vote_submission(
        Vote {
            voter_address: vote_data.voter,
            period_id: VotingPeriodId(voting_period),
            decision_id,
            value,
            timestamp,
            block_height: height,
            tx_hash: filled_tx.txid().0,
        },
    );
    Ok(())
}

/// The votes without one.
pub open spec fn vote_removed(voting: VotingView, voter: Address, id_bytes: [u8; 3]) -> VotingView {
    let decision_id = DecisionId(id_bytes);
    VotingView {
        votes: voting.votes.remove(
            vote_key(VotingPeriodId((decision_id.period() + 1) as u32), voter, decision_id),
        ),
        ..voting
    }
}

/// Takes a vote back.
pub fn revert_submit_vote(voting: &mut VotingDatabases, filled_tx: &FilledTransaction) -> (r: Result<
    (),
    Error,
>)
    ensures
        match filled_tx.transaction.data {
            Some(
                TransactionData::SubmitVote { voter, decision_id_bytes, vote_value, voting_period },
            ) => r is Ok && final(voting)@ == vote_removed(
                old(voting)@,
                voter,
                decision_id_bytes,
            ),
            _ => r == Err::<(), Error>(
                Error::InvalidTransaction {
                    reason: Reason::Text("Not a vote submission transaction"),
                },
            ),
        },
{
    match filled_tx.submit_vote() {
        None => Err(
            Error::InvalidTransaction { reason: Reason::Text("Not a vote submission transaction") },
        ),
        Some(vote_data) => {
            let decision_id = DecisionId(vote_data.decision_id_bytes);
            let period_id = VotingPeriodId(decision_id.voting_period());
            let _ = voting.delete_vote(period_id, vote_data.voter, decision_id);
            Ok(())
        },
    }
}

/// What a list holds at a place, none past its end.
pub open spec fn value_at(values: Seq<Option<Real>>, i: int) -> Option<Real> {
    if 0 <= i < values.len() {
        values[i]
    } else {
        None
    }
}

/// Why a vote does not belong into a ballot: the first one is of another period
/// than the transaction names, or a later one of another than the first.
pub open spec fn ballot_refusal(item: BallotItem, place: int, voting_period: u32) -> Reason {
    let decision_id = DecisionId(item.decision_id_bytes);
    let required = (decision_id.period() + 1) as u32;
    if place == 0 {
        Reason::BallotGivenPeriod { required, given: voting_period }
    } else {
        Reason::BallotPeriodMismatch { decision_id, required, expected: voting_period }
    }
}

/// The votes of a ballot. All are cast in one period, the one that the
/// transaction names.
pub open spec fn ballot_votes(
    items: Seq<BallotItem>,
    voting_period: u32,
    values: Seq<Option<Real>>,
    by: Casting,
) -> Result<Seq<Vote>, Error>
    decreases items.len(),
{
    if items.len() == 0 {
        Ok(Seq::empty())
    } else {
        match ballot_votes(items.drop_last(), voting_period, values, by) {
            Err(e) => Err(e),
            Ok(votes) => if DecisionId(items.last().decision_id_bytes).period() + 1
                != voting_period {
                Err(Error::InvalidTransaction { reason: ballot_refusal(items.last(), items.len() - 1, voting_period) })
            } else {
                Ok(
                    votes.push(
                        vote_on(
                            items.last().decision_id_bytes,
                            value_at(values, items.len() - 1),
                            by,
                        ),
                    ),
                )
            },
        }
    }
}

/// What a ballot makes of an update.
pub open spec fn ballot_applied(
    update: StateUpdateView,
    tx: FilledTransaction,
    timestamp: Option<u64>,
    height: u32,
    values: Seq<Option<Real>>,
) -> Result<StateUpdateView, Error> {
    match tx.transaction.data {
        Some(TransactionData::SubmitBallot { voter, votes, voting_period }) => match timestamp {
            None => Err(
                Error::InvalidTransaction {
                    reason: Reason::Text("No mainchain timestamp available"),
                },
            ),
            Some(timestamp) => match ballot_votes(
                votes@,
                voting_period,
                values,
                Casting { voter, timestamp, height, tx_hash: tx.transaction.id().0 },
            ) {
                Err(e) => Err(e),
                Ok(list) => Ok(StateUpdateView { votes: update.votes + list, ..update }),
            },
        },
        _ => Err(
            Error::InvalidTransaction {
                reason: Reason::Text("Not a ballot submission transaction"),
            },
        ),
    }
}

proof fn lemma_ballot_prefix(
    items: Seq<BallotItem>,
    voting_period: u32,
    values: Seq<Option<Real>>,
    by: Casting,
    n: int,
)
    requires
        0 <= n <= items.len(),
        ballot_votes(items.subrange(0, n), voting_period, values, by) is Err,
    ensures
        ballot_votes(items, voting_period, values, by) == ballot_votes(
            items.subrange(0, n),
            voting_period,
            values,
            by,
        ),
    decreases items.len() - n,
{
    if n == items.len() {
        assert(items.subrange(0, n) =~= items);
    } else {
        assert(items.subrange(0, n + 1).drop_last() =~= items.subrange(0, n));
        lemma_ballot_prefix(items, voting_period, values, by, n + 1);
    }
}

fn cast_votes(
    state_update: &mut StateUpdate,
    items: &Box<[BallotItem]>,
    voting_period: u32,
    values: &Vec<Option<Real>>,
    voter: Address,
    timestamp: u64,
    height: u32,
    tx_hash: [u8; 32],
) -> (r: Result<(), Error>)
    ensures
        match ballot_votes(
            items@,
            voting_period,
            values@,
            Casting { voter, timestamp, height, tx_hash },
        ) {
            Ok(list) => r is Ok && final(state_update)@ == (StateUpdateView {
                votes: old(state_update)@.votes + list,
                ..old(state_update)@
            }),
            Err(e) => r == Err::<(), Error>(e),
        },
{
    let ghost by = Casting { voter, timestamp, height, tx_hash };
    let ghost start = state_update@;
    let ghost mut list: Seq<Vote> = Seq::empty();
    let mut i: usize = 0;
    assert(items@.subrange(0, 0) =~= Seq::empty());
    assert(start.votes + list =~= start.votes);
    while i < items.len()
        invariant
            i <= items@.len(),
            by == (Casting { voter, timestamp, height, tx_hash }),
            ballot_votes(items@.subrange(0, i as int), voting_period, values@, by) == Ok::<
                Seq<Vote>,
                Error,
            >(list),
            state_update@ == (StateUpdateView { votes: start.votes + list, ..start }),
        decreases items@.len() - i,
    {
        let ghost next = items@.subrange(0, i + 1);
        proof {
            assert(next.drop_last() =~= items@.subrange(0, i as int));
        }
        let decision_id = DecisionId(items[i].decision_id_bytes);
        if decision_id.voting_period() != voting_period {
            proof {
                lemma_ballot_prefix(items@, voting_period, values@, by, i + 1);
            }
            return Err(Error::InvalidTransaction { reason: if i == 0 {
                Reason::BallotGivenPeriod {
                    required: decision_id.voting_period(),
                    given: voting_period,
                }
            } else {
                Reason::BallotPeriodMismatch {
                    decision_id,
                    required: decision_id.voting_period(),
                    expected: voting_period,
                }
            } });
        }
        let value: Option<Real> = if i < values.len() {
            values[i]
        } else {
            None
        };
        let vote = Vote {
            voter_address: voter,
            period_id: VotingPeriodId(voting_period),
            decision_id,
            value,
            timestamp,
            block_height: height,
            tx_hash,
        };
        state_update.add_vote_submission(vote);
        proof {
            assert((start.votes + list).push(vote) =~= start.votes + list.push(vote));
            list = list.push(vote);
        }
        i += 1;
    }
    assert(items@.subrange(0, i as int) =~= items@);
    Ok(())
}

/// Writes the votes of a ballot into an update. `values` are the votes on the
/// scales of their decisions.
pub fn apply_submit_ballot(
    filled_tx: &FilledTransaction,
    state_update: &mut StateUpdate,
    timestamp: Option<u64>,
    height: u32,
    values: &Vec<Option<Real>>,
) -> (r: Result<(), Error>)
    requires
        filled_tx.transaction.encodable(),
    ensures
        match r {
            Ok(()) => ballot_applied(old(state_update)@, *filled_tx, timestamp, height, values@)
                == Ok::<StateUpdateView, Error>(final(state_update)@),
            Err(e) => ballot_applied(old(state_update)@, *filled_tx, timestamp, height, values@)
                == Err::<StateUpdateView, Error>(e),
        },
{
    let ballot_data = match filled_tx.submit_ballot() {
        None => return Err(
            Error::InvalidTransaction {
                reason: Reason::Text("Not a ballot submission transaction"),
            },
        ),
        Some(ballot_data) => ballot_data,
    };
    let timestamp: u64 = match timestamp {
        None => return Err(
            Error::InvalidTransaction { reason: Reason::Text("No mainchain timestamp available") },
        ),
        Some(timestamp) => timestamp,
    };
    let tx_hash = filled_tx.txid().0;
    cast_votes(
        state_update,
        &ballot_data.votes,
        ballot_data.voting_period,
        values,
        ballot_data.voter,
        timestamp,
        height,
        tx_hash,
    )
}

/// The votes without those of a ballot.
pub open spec fn ballot_removed(voting: VotingView, voter: Address, items: Seq<BallotItem>)
    -> VotingView
    decreases items.len(),
{
    if items.len() == 0 {
        voting
    } else {
        vote_removed(
            ballot_removed(voting, voter, items.drop_last()),
            voter,
            items.last().decision_id_bytes,
        )
    }
}

/// Takes the votes of a ballot back.
pub fn revert_submit_ballot(voting: &mut VotingDatabases, filled_tx: &FilledTransaction) -> (r:
    Result<(), Error>)
    ensures
        match filled_tx.transaction.data {
            Some(TransactionData::SubmitBallot { voter, votes, voting_period }) => {
                &&& r is Ok
                &&& final(voting)@ == ballot_removed(old(voting)@, voter, votes@)
            },
            _ => r == Err::<(), Error>(
                Error::InvalidTransaction {
                    reason: Reason::Text("Not a ballot submission transaction"),
                },
            ),
        },
{
    let ballot_data = match filled_tx.submit_ballot() {
        None => return Err(
            Error::InvalidTransaction {
                reason: Reason::Text("Not a ballot submission transaction"),
            },
        ),
        Some(ballot_data) => ballot_data,
    };
    let items = &ballot_data.votes;
    let voter = ballot_data.voter;
    let mut i: usize = 0;
    assert(items@.subrange(0, 0) =~= Seq::empty());
    while i < items.len()
        invariant
            i <= items@.len(),
            voting@ == ballot_removed(old(voting)@, voter, items@.subrange(0, i as int)),
        decreases items@.len() - i,
    {
        assert(items@.subrange(0, i + 1).drop_last() =~= items@.subrange(0, i as int));
        let decision_id = DecisionId(items[i].decision_id_bytes);
        let period_id = VotingPeriodId(decision_id.voting_period());
        let _ = voting.delete_vote(period_id, voter, decision_id);
        i += 1;
    }
    assert(items@.subrange(0, i as int) =~= items@);
    Ok(())
}

/// What the two parties to a transfer had before it.
#[derive(Clone, Copy, Debug)]
pub struct ReputationTransferUndoEntry {
    pub sender: Address,
    pub sender_pre_reputation: Real,
    pub receiver: Address,
    pub receiver_pre_reputation: Real,
}

/// What the two parties to a transfer have after it: what the sender has left,
/// and what the receiver has then.
#[derive(Clone, Copy, Debug)]
pub struct TransferResult {
    pub sender_left: Real,
    pub receiver_total: Real,
}

/// What a transfer makes of reputations, and what they were.
pub open spec fn transfer_applied(m: Reputations, tx: FilledTransaction, result: TransferResult)
    -> Result<(Reputations, ReputationTransferUndoEntry), Error> {
    match tx.transaction.data {
        Some(TransactionData::TransferReputation { sender, dest, amount }) => if reputation_of(
            m,
            sender,
        ).less(amount) {
            Err(
                Error::InvalidTransaction {
                    reason: Reason::InsufficientReputation {
                        has: reputation_of(m, sender),
                        needs: amount,
                    },
                },
            )
        } else {
            Ok(
                (
                    with_reputation(
                        with_reputation(m, sender, result.sender_left),
                        dest,
                        result.receiver_total,
                    ),
                    ReputationTransferUndoEntry {
                        sender,
                        sender_pre_reputation: reputation_of(m, sender),
                        receiver: dest,
                        receiver_pre_reputation: reputation_of(m, dest),
                    },
                ),
            )
        },
        _ => Err(
            Error::InvalidTransaction {
                reason: Reason::Text("Not a reputation transfer transaction"),
            },
        ),
    }
}

/// What the two parties to a transfer have, before it.
pub fn transfer_parties(reputation: &ReputationDbs, filled_tx: &FilledTransaction) -> (r: Option<
    (Real, Real),
>)
    ensures
        match filled_tx.transaction.data {
            Some(TransactionData::TransferReputation { sender, dest, amount }) => r == Some(
                (reputation_of(reputation@, sender), reputation_of(reputation@, dest)),
            ),
            _ => r is None,
        },
{
    match filled_tx.transfer_reputation() {
        None => None,
        Some(transfer) => Some(
            (
                reputation.get_reputation(&transfer.sender),
                reputation.get_reputation(&transfer.dest),
            ),
        ),
    }
}

/// Hands reputation over. `result` is what the two parties have afterwards.
pub fn apply_transfer_reputation(
    reputation: &mut ReputationDbs,
    filled_tx: &FilledTransaction,
    result: &TransferResult,
) -> (r: Result<ReputationTransferUndoEntry, Error>)
    ensures
        match r {
            Ok(entry) => transfer_applied(old(reputation)@, *filled_tx, *result) == Ok::<
                (Reputations, ReputationTransferUndoEntry),
                Error,
            >((final(reputation)@, entry)),
            Err(e) => transfer_applied(old(reputation)@, *filled_tx, *result) == Err::<
                (Reputations, ReputationTransferUndoEntry),
                Error,
            >(e),
        },
{
    let transfer = match filled_tx.transfer_reputation() {
        None => return Err(
            Error::InvalidTransaction {
                reason: Reason::Text("Not a reputation transfer transaction"),
            },
        ),
        Some(transfer) => transfer,
    };
    let sender_rep = reputation.get_reputation(&transfer.sender);
    if sender_rep.is_less(transfer.amount) {
        return Err(
            Error::InvalidTransaction {
                reason: Reason::InsufficientReputation { has: sender_rep, needs: transfer.amount },
            },
        );
    }
    let receiver_rep = reputation.get_reputation(&transfer.dest);
    reputation.set_reputation(&transfer.sender, result.sender_left);
    reputation.set_reputation(&transfer.dest, result.receiver_total);
    Ok(
        ReputationTransferUndoEntry {
            sender: transfer.sender,
            sender_pre_reputation: sender_rep,
            receiver: transfer.dest,
            receiver_pre_reputation: receiver_rep,
        },
    )
}

/// Transfers are taken back, the last one first.
pub open spec fn transfers_undone(m: Reputations, entries: Seq<ReputationTransferUndoEntry>)
    -> Reputations
    decreases entries.len(),
{
    if entries.len() == 0 {
        m
    } else {
        let e = entries.last();
        transfers_undone(
            with_reputation(
                with_reputation(m, e.sender, e.sender_pre_reputation),
                e.receiver,
                e.receiver_pre_reputation,
            ),
            entries.drop_last(),
        )
    }
}

pub fn revert_transfers(
    reputation: &mut ReputationDbs,
    entries: &Vec<ReputationTransferUndoEntry>,
)
    ensures
        final(reputation)@ == transfers_undone(old(reputation)@, entries@),
{
    let mut i: usize = entries.len();
    assert(entries@.subrange(0, i as int) =~= entries@);
    while i > 0
        invariant
            i <= entries@.len(),
            transfers_undone(reputation@, entries@.subrange(0, i as int)) == transfers_undone(
                old(reputation)@,
                entries@,
            ),
        decreases i,
    {
        i -= 1;
        assert(entries@.subrange(0, i + 1).drop_last() =~= entries@.subrange(0, i as int));
        let e = &entries[i];
        reputation.set_reputation(&e.sender, e.sender_pre_reputation);
        reputation.set_reputation(&e.receiver, e.receiver_pre_reputation);
    }
    assert(entries@.subrange(0, 0) =~= Seq::empty());
}

/// Taking a transfer back gives back all reputations, where those that are
/// kept are above zero.
pub proof fn undoing_a_transfer(m: Reputations, tx: FilledTransaction, result: TransferResult)
    requires
        transfer_applied(m, tx, result) is Ok,
        positives(m) == m,
    ensures
        transfers_undone(
            transfer_applied(m, tx, result)->Ok_0.0,
            seq![transfer_applied(m, tx, result)->Ok_0.1],
        ) == m,
{
    let (after, e) = transfer_applied(m, tx, result)->Ok_0;
    let list = seq![e];
    assert(list.drop_last() =~= Seq::empty());
    let back = with_reputation(
        with_reputation(after, e.sender, e.sender_pre_reputation),
        e.receiver,
        e.receiver_pre_reputation,
    );
    assert(transfers_undone(after, list) == transfers_undone(back, list.drop_last()));
    assert forall|a: Address| #[trigger] m.dom().contains(a) implies positive(
        m[a],
    ) by {
        assert(positives(m).dom().contains(a));
    }
    assert(back =~= m);
}

/// Taking back a ballot that was cast just before gives back the votes, when
/// none of them was there and no decision is voted on twice.
pub proof fn removing_undoes_voting(
    voting: VotingView,
    items: Seq<BallotItem>,
    voting_period: u32,
    values: Seq<Option<Real>>,
    by: Casting,
)
    requires
        ballot_votes(items, voting_period, values, by) is Ok,
        forall|i: int|
            0 <= i < items.len() ==> !voting.votes.dom().contains(
                vote_key(
                    VotingPeriodId(voting_period),
                    by.voter,
                    DecisionId((#[trigger] items[i]).decision_id_bytes),
                ),
            ),
    ensures
        ballot_removed(
            votes_put(
                voting,
                ballot_votes(items, voting_period, values, by)->Ok_0,
            ),
            by.voter,
            items,
        ) == voting,
{
    let votes = ballot_votes(items, voting_period, values, by)->Ok_0;
    let after = votes_put(voting, votes);
    lemma_ballot_put(voting, items, voting_period, values, by);
    lemma_ballot_removed(after, by.voter, items);
    let back = ballot_removed(after, by.voter, items);
    assert(back.votes =~= voting.votes);
}

/// The key of a vote of a ballot.
pub open spec fn item_key(voter: Address, item: BallotItem) -> VoteMatrixKey {
    let decision_id = DecisionId(item.decision_id_bytes);
    vote_key(VotingPeriodId((decision_id.period() + 1) as u32), voter, decision_id)
}

/// A vote of the ballot has the key.
pub open spec fn is_item_key(
    voter: Address,
    items: Seq<BallotItem>,
    key: VoteMatrixKey,
) -> bool {
    exists|i: int| 0 <= i < items.len() && item_key(voter, #[trigger] items[i]) == key
}

pub proof fn lemma_ballot_put(
    voting: VotingView,
    items: Seq<BallotItem>,
    voting_period: u32,
    values: Seq<Option<Real>>,
    by: Casting,
)
    requires
        ballot_votes(items, voting_period, values, by) is Ok,
    ensures
        ({
            let after = votes_put(
                voting,
                ballot_votes(items, voting_period, values, by)->Ok_0,
            );
            &&& after == (VotingView { votes: after.votes, ..voting })
            &&& forall|key: VoteMatrixKey|
                !is_item_key(by.voter, items, key) ==> (#[trigger] after.votes.dom().contains(key)
                    <==> voting.votes.dom().contains(key)) && after.votes[key] == voting.votes[key]
            &&& forall|i: int|
                0 <= i < items.len() ==> DecisionId(
                    (#[trigger] items[i]).decision_id_bytes,
                ).period() + 1 == voting_period
        }),
    decreases items.len(),
{
    if items.len() > 0 {
        let front = items.drop_last();
        lemma_ballot_put(voting, front, voting_period, values, by);
        let votes = ballot_votes(items, voting_period, values, by)->Ok_0;
        let before = ballot_votes(front, voting_period, values, by)->Ok_0;
        assert(votes.drop_last() =~= before);
        assert forall|key: VoteMatrixKey| !is_item_key(
            by.voter,
            items,
            key,
        ) implies !is_item_key(by.voter, front, key) && key != item_key(
            by.voter,
            items.last(),
        ) by {
            if is_item_key(by.voter, front, key) {
                let i = choose|i: int|
                    0 <= i < front.len() && item_key(by.voter, #[trigger] front[i]) == key;
                assert(item_key(by.voter, items[i]) == key);
            }
            assert(items[items.len() - 1] == items.last());
        }
        assert forall|i: int| 0 <= i < items.len() implies DecisionId(
            (#[trigger] items[i]).decision_id_bytes,
        ).period() + 1 == voting_period by {
            if i < front.len() {
                assert(front[i] == items[i]);
            }
        }
    }
}

pub proof fn lemma_ballot_removed(voting: VotingView, voter: Address, items: Seq<BallotItem>)
    ensures
        ({
            let after = ballot_removed(voting, voter, items);
            &&& after == (VotingView { votes: after.votes, ..voting })
            &&& forall|key: VoteMatrixKey| #[trigger]
                after.votes.dom().contains(key) <==> voting.votes.dom().contains(key)
                    && !is_item_key(voter, items, key)
            &&& forall|key: VoteMatrixKey| #[trigger]
                after.votes.dom().contains(key) ==> after.votes[key] == voting.votes[key]
        }),
    decreases items.len(),
{
    if items.len() > 0 {
        let front = items.drop_last();
        lemma_ballot_removed(voting, voter, front);
        assert forall|key: VoteMatrixKey| is_item_key(
            voter,
            items,
            key,
        ) <==> is_item_key(voter, front, key) || key == item_key(voter, items.last()) by {
            if is_item_key(voter, front, key) {
                let i = choose|i: int|
                    0 <= i < front.len() && item_key(voter, #[trigger] front[i]) == key;
                assert(item_key(voter, items[i]) == key);
            }
            assert(items[items.len() - 1] == items.last());
            if is_item_key(voter, items, key) {
                let i = choose|i: int|
                    0 <= i < items.len() && item_key(voter, #[trigger] items[i]) == key;
                if i < front.len() {
                    assert(item_key(voter, front[i]) == key);
                }
            }
        }
    }
}

} // verus!
