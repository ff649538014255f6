//! What holds of the records of votes.

use vstd::prelude::*;

use crate::state::decisions::database::DecisionsView;
use crate::state::decisions::DecisionId;
use crate::state::bundle_laws::lemma_filtered;
use crate::state::reputation::{positives, Reputations};
use crate::state::update::vote_put;
use crate::state::voting::database::{ballots_for, insert_ballot, outcome_of_period, outcomes_for, period_issues, VotingView};
use crate::state::voting::polls::consensus_count;
use crate::state::voting::system::{
    conservation_problem, first_without_history, is_finished, is_plan, reckoning_undone, resolved_one,
    without_outcomes, ConsensusPlan, Reckoned, ReputationSums,
};
use crate::state::voting::types::{
    Ballot, BallotKey, ConsensusResult, DecisionOutcome, DecisionResolutionEntry, Vote,
    VoteMatrixEntry, VoteMatrixKey, VotingPeriod, VotingPeriodId, VotingPeriodStats,
};
use crate::types::Real;

verus! {

/// A vote is recorded under its period, voter and decision, with its value, its time and
/// its height, and no other record changes.
pub proof fn votes_are_recorded(v: VotingView, vote: Vote, key: VoteMatrixKey)
    ensures
        ({
            let after = vote_put(v, vote);
            let own = key.period_id == vote.period_id && key.voter_address == vote.voter_address
                && key.decision_id == vote.decision_id;
            &&& own ==> {
                &&& after.votes.dom().contains(key)
                &&& after.votes[key].value == vote.value
                &&& after.votes[key].timestamp == vote.timestamp
                &&& after.votes[key].block_height == vote.block_height
            }
            &&& !own ==> (after.votes.dom().contains(key) <==> v.votes.dom().contains(key))
                && after.votes[key] == v.votes[key]
            &&& after.ballots == v.ballots
            &&& after.outcomes == v.outcomes
            &&& after.stats == v.stats
        }),
{
}

proof fn lemma_inserted(list: Seq<Ballot>, ballot: Ballot, b: Ballot)
    ensures
        insert_ballot(list, ballot).len() == list.len() + 1,
        insert_ballot(list, ballot).contains(b) <==> list.contains(b) || b == ballot,
    decreases list.len(),
{
    let after = insert_ballot(list, ballot);
    if list.len() == 0 {
        assert(after[0] == ballot);
    } else if list.last().created_at <= ballot.created_at {
        assert(after[after.len() - 1] == ballot);
        if list.contains(b) {
            assert(after[list.index_of(b)] == b);
        }
        if after.contains(b) && b != ballot {
            assert(list[after.index_of(b)] == b);
        }
    } else {
        let front = list.drop_last();
        lemma_inserted(front, ballot, b);
        let before = insert_ballot(front, ballot);
        assert(list[list.len() - 1] == list.last());
        assert(after[after.len() - 1] == list.last());
        if front.contains(b) {
            assert(list[front.index_of(b)] == b);
        }
        if before.contains(b) {
            assert(after[before.index_of(b)] == b);
        }
        if list.contains(b) && b != list.last() {
            assert(front[list.index_of(b)] == b);
        }
        if after.contains(b) && b != list.last() {
            assert(before[after.index_of(b)] == b);
        }
    }
}

/// The ballots of a period are those that were cast in it, and all of them.
pub proof fn ballots_of_a_period_are_all_found(
    rows: Seq<(BallotKey, Ballot)>,
    period_id: VotingPeriodId,
    b: Ballot,
)
    ensures
        ballots_for(rows, period_id).contains(b) <==> exists|i: int|
            0 <= i < rows.len() && (#[trigger] rows[i]).0.period_id == period_id && rows[i].1 == b,
    decreases rows.len(),
{
    if rows.len() > 0 {
        let front = rows.drop_last();
        ballots_of_a_period_are_all_found(front, period_id, b);
        assert(rows[rows.len() - 1] == rows.last());
        if rows.last().0.period_id == period_id {
            lemma_inserted(ballots_for(front, period_id), rows.last().1, b);
        }
        if ballots_for(front, period_id).contains(b) {
            let i = choose|i: int|
                0 <= i < front.len() && (#[trigger] front[i]).0.period_id == period_id
                    && front[i].1 == b;
            assert(rows[i] == front[i]);
        }
        if exists|i: int|
            0 <= i < rows.len() && (#[trigger] rows[i]).0.period_id == period_id && rows[i].1 == b {
            let i = choose|i: int|
                0 <= i < rows.len() && (#[trigger] rows[i]).0.period_id == period_id && rows[i].1
                    == b;
            if i < front.len() {
                assert(front[i] == rows[i]);
            }
        }
    }
}

/// An outcome is at fault where its period is not the one after that of its decision.
pub proof fn outcomes_belong_to_the_next_period(
    rows: Seq<(DecisionId, DecisionOutcome)>,
    row: (DecisionId, DecisionOutcome),
)
    ensures
        period_issues(Seq::<(DecisionId, DecisionOutcome)>::empty()).len() == 0,
        period_issues(rows.push(row)).len() == period_issues(rows).len() + if row.1.period_id.0
            != row.1.decision_id.period() + 1 {
            1int
        } else {
            0
        },
{
    assert(rows.push(row).drop_last() =~= rows);
}

/// Each outcome that was agreed on counts once.
pub proof fn agreed_outcomes_are_counted(
    outcomes: Seq<(DecisionId, DecisionOutcome)>,
    row: (DecisionId, DecisionOutcome),
)
    ensures
        consensus_count(Seq::<(DecisionId, DecisionOutcome)>::empty()) == 0,
        row.1.is_consensus ==> consensus_count(outcomes.push(row)) == consensus_count(outcomes) + 1,
        !row.1.is_consensus ==> consensus_count(outcomes.push(row)) == consensus_count(outcomes),
{
    assert(outcomes.push(row).drop_last() =~= outcomes);
}

/// A reckoning is refused where its decisions are not all on record.
pub proof fn reckoned_decisions_are_on_record(
    view: DecisionsView,
    list: Seq<DecisionResolutionEntry>,
    i: int,
)
    requires
        0 <= i,
    ensures
        first_without_history(view, list, i) is None <==> forall|k: int|
            i <= k < list.len() ==> view.histories.dom().contains(
                (#[trigger] list[k]).decision_id,
            ),
    decreases list.len() - i,
{
    if i < list.len() {
        reckoned_decisions_are_on_record(view, list, i + 1);
    }
}

/// Reputation is conserved where neither the drift of the block nor that since the
/// beginning exceeds its limit.
pub proof fn drift_has_limits(sums: ReputationSums)
    requires
        !sums.block_limit.is_nan() && !sums.block_drift.is_nan(),
        !sums.anchor_limit.is_nan() && !sums.anchor_drift.is_nan(),
    ensures
        conservation_problem(sums) is None <==> sums.block_drift.rank() <= sums.block_limit.rank()
            && sums.anchor_drift.rank() <= sums.anchor_limit.rank(),
{
}

/// The record of a reckoned period names for each voter the reputation before and after,
/// and holds the loading and the certainty that were reckoned. Its counts are those that
/// were recorded before.
pub proof fn reckonings_are_recorded(
    r: ConsensusResult,
    stats: Map<VotingPeriodId, VotingPeriodStats>,
    reputation: Reputations,
    period: VotingPeriod,
    vote_count: u64,
    total_weight: Real,
    reckoned: Reckoned,
    timestamp: u64,
    height: u32,
    i: int,
)
    requires
        is_finished(
            r,
            stats,
            reputation,
            period,
            vote_count,
            total_weight,
            reckoned,
            timestamp,
            height,
        ),
    ensures
        r.period_id == period.id,
        r.block_height == height,
        r.timestamp == timestamp,
        r.total_decisions == period.decision_ids@.len(),
        r.period_stats.certainty == Some(reckoned.certainty),
        r.period_stats.first_loading is Some,
        r.period_stats.first_loading->0@ == reckoned.first_loading@,
        0 <= i < reckoned.updated_reputations@.len() ==> {
            let (address, after) = reckoned.updated_reputations@[i];
            let before = positives(reputation);
            let list = r.period_stats.reputation_changes->0@;
            &&& r.period_stats.reputation_changes is Some
            &&& list.len() == reckoned.updated_reputations@.len()
            &&& list[i].0 == address
            &&& list[i].1 == if before.dom().contains(address) {
                before[address]
            } else {
                Real { bits: 0 }
            }
            &&& list[i].2 == after
        },
        stats.dom().contains(period.id) ==> {
            let was = stats[period.id];
            &&& r.period_stats.total_voters == was.total_voters
            &&& r.period_stats.total_votes == was.total_votes
            &&& r.period_stats.total_decisions == was.total_decisions
            &&& r.period_stats.consensus_decisions == was.consensus_decisions
            &&& r.period_stats.avg_participation_rate == was.avg_participation_rate
            &&& r.period_stats.total_reputation_weight == was.total_reputation_weight
        },
        !stats.dom().contains(period.id) ==> {
            &&& r.period_stats.total_voters == 0
            &&& r.period_stats.total_votes == 0
            &&& r.period_stats.total_decisions == 0
            &&& r.period_stats.consensus_decisions == 0
        },
{
}

/// A reckoning that is taken back leaves none of its outcomes, and leaves the record of
/// the period only where there was one before.
pub proof fn reckonings_are_taken_back(
    voting: VotingView,
    ids: Seq<DecisionId>,
    had_period_stats: bool,
    period_id: VotingPeriodId,
    id: DecisionId,
)
    ensures
        ({
            let after = reckoning_undone(voting, ids, had_period_stats, period_id);
            &&& after.outcomes.dom().contains(id) <==> voting.outcomes.dom().contains(id)
                && !ids.contains(id)
            &&& !ids.contains(id) ==> after.outcomes[id] == voting.outcomes[id]
            &&& had_period_stats ==> after.stats == voting.stats
            &&& !had_period_stats ==> after.stats == voting.stats.remove(period_id)
            &&& after.votes == voting.votes
            &&& after.ballots == voting.ballots
        }),
{
    lemma_without_outcomes(voting.outcomes, ids, id);
}

proof fn lemma_without_outcomes(
    outcomes: Map<DecisionId, DecisionOutcome>,
    ids: Seq<DecisionId>,
    id: DecisionId,
)
    ensures
        without_outcomes(outcomes, ids).dom().contains(id) <==> outcomes.dom().contains(id)
            && !ids.contains(id),
        !ids.contains(id) ==> without_outcomes(outcomes, ids)[id] == outcomes[id],
    decreases ids.len(),
{
    if ids.len() > 0 {
        let front = ids.drop_last();
        lemma_without_outcomes(outcomes, front, id);
        assert(ids[ids.len() - 1] == ids.last());
        if front.contains(id) {
            assert(ids[front.index_of(id)] == id);
        }
        if ids.contains(id) && id != ids.last() {
            assert(front[ids.index_of(id)] == id);
        }
    }
}

/// A decision is resolved where it is voted on and its outcome is not below minus one.
pub proof fn decisions_in_voting_can_be_resolved(
    view: DecisionsView,
    entry: DecisionResolutionEntry,
    block_height: u32,
)
    requires
        !entry.outcome_value.is_nan(),
    ensures
        resolved_one(view, entry, block_height) is Ok <==> {
            let id = entry.decision_id;
            &&& view.histories.dom().contains(id)
            &&& view.histories[id].len() > 0
            &&& view.histories[id].last().0 is Voting
            &&& entry.outcome_value.rank() >= -0x3ff0_0000_0000_0000
        },
        resolved_one(view, entry, block_height) is Ok ==> {
            let after = resolved_one(view, entry, block_height)->Ok_0.histories[entry.decision_id];
            let before = view.histories[entry.decision_id];
            &&& after.len() == before.len() + 1
            &&& after.drop_last() == before
            &&& after.last().0 is Resolved
            &&& after.last().1 == block_height
            &&& after.last().2 == Some(entry.outcome_value)
        },
{
    let before = view.histories[entry.decision_id];
    if resolved_one(view, entry, block_height) is Ok {
        let after = resolved_one(view, entry, block_height)->Ok_0.histories[entry.decision_id];
        assert(after.drop_last() =~= before);
    }
}

/// A period of which an outcome is on record, of a decision of the period before, is not
/// reckoned again.
pub proof fn reckoned_periods_are_left_alone(
    plan: ConsensusPlan,
    votes: Seq<(VoteMatrixKey, VoteMatrixEntry)>,
    outcomes: Seq<(DecisionId, DecisionOutcome)>,
    reputation: Reputations,
    decisions: DecisionsView,
    period: VotingPeriod,
    total_weight: Real,
    timestamp: u64,
    height: u32,
    i: int,
)
    requires
        is_plan(
            plan,
            votes,
            outcomes,
            reputation,
            decisions,
            period,
            total_weight,
            timestamp,
            height,
        ),
        0 <= i < outcomes.len(),
        outcomes[i].1.period_id == period.id,
        outcomes[i].0.period() + 1 == period.id.0,
    ensures
        plan is Skip,
{
    let p = |row: (DecisionId, DecisionOutcome)| outcome_of_period(row, period.id);
    lemma_filtered(outcomes, p, outcomes[i]);
    assert(outcomes.contains(outcomes[i]));
    assert(p(outcomes[i]));
    assert(outcomes_for(outcomes, period.id) == outcomes.filter(p));
    assert(outcomes_for(outcomes, period.id).contains(outcomes[i]));
}

} // verus!
