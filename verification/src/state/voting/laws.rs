//! What holds of reckoning the votes of a period.

use vstd::prelude::*;

use crate::bytes::{bytes_before, bytes_before_irreflexive, bytes_before_transitive};
use crate::state::decisions::database::DecisionsView;
use crate::state::decisions::types::{DecisionState, DecisionType};
use crate::state::decisions::DecisionId;
use crate::state::reputation::{positives, Reputations};
use crate::state::voting::database::{outcomes_for, votes_for};
use crate::state::voting::system::{
    casts, insert_id, is_committed, is_finished, is_plan, largest_in, missing_outcomes,
    reckoned_outcomes, reckoning_of, resolved_all, sorted_ids, updated, with_outcomes,
    ConsensusPlan, ConsensusUndoEntry, Reckoned, Reckoning, ReputationSums, Tally,
};
use crate::state::voting::types::{
    ConsensusResult, DecisionOutcome, DecisionResolutionEntry, VoteMatrixEntry, VoteMatrixKey,
    VotingPeriod, VotingPeriodId, VotingPeriodStats,
};
use crate::state::Error;
use crate::table::{ascending, has_key, row_has_key, rows_map, rows_of, Key};
use crate::types::{Address, Real};

verus! {

/// Votes on a decision are reckoned as its type asks: a binary decision as yes
/// or no, a scaled one as a number on its scale, and a category by plurality
/// among as many options as it has.
pub proof fn reckoning_follows_the_type(view: DecisionsView, id: DecisionId)
    requires
        view.periods.dom().contains(id.period()),
        view.periods[id.period()].dom().contains(id),
        view.periods[id.period()][id][0].decision is Some,
    ensures
        ({
            let decision = view.periods[id.period()][id][0].decision->0;
            &&& decision.decision_type is Binary <==> reckoning_of(view, id) == Reckoning::Binary
            &&& decision.decision_type is Scaled <==> reckoning_of(view, id) == Reckoning::Scaled
            &&& decision.decision_type is Category <==> reckoning_of(view, id) is Categorical
            &&& match decision.decision_type {
                DecisionType::Category { options } => options@.len() <= u16::MAX ==> reckoning_of(
                    view,
                    id,
                )->Categorical_0 == options@.len(),
                _ => true,
            }
        }),
{
}

/// Sorting the decisions of a period loses none and adds none, and puts them in
/// the order of their bytes.
pub proof fn sorting_keeps_decisions(ids: Seq<DecisionId>)
    ensures
        sorted_ids(ids).to_multiset() == ids.to_multiset(),
        sorted_ids(ids).len() == ids.len(),
        forall|id: DecisionId| sorted_ids(ids).contains(id) <==> ids.contains(id),
        forall|i: int, j: int|
            0 <= i < j < sorted_ids(ids).len() ==> !bytes_before(
                (#[trigger] sorted_ids(ids)[j]).0@,
                (#[trigger] sorted_ids(ids)[i]).0@,
            ),
    decreases ids.len(),
{
    broadcast use vstd::seq_lib::group_to_multiset_ensures;

    if ids.len() > 0 {
        let front = ids.drop_last();
        sorting_keeps_decisions(front);
        lemma_inserted(sorted_ids(front), ids.last());
        assert(front.push(ids.last()) =~= ids);
        assert(ids.to_multiset() =~= front.to_multiset().insert(ids.last()));
    }
    assert(sorted_ids(ids).to_multiset().len() == ids.to_multiset().len());
    assert forall|id: DecisionId| sorted_ids(ids).contains(id) <==> ids.contains(id) by {
        assert(sorted_ids(ids).to_multiset().count(id) == ids.to_multiset().count(id));
    }
}

spec fn in_byte_order(list: Seq<DecisionId>) -> bool {
    forall|i: int, j: int|
        0 <= i < j < list.len() ==> !bytes_before(
            (#[trigger] list[j]).0@,
            (#[trigger] list[i]).0@,
        )
}

proof fn lemma_inserted(list: Seq<DecisionId>, id: DecisionId)
    requires
        in_byte_order(list),
    ensures
        in_byte_order(insert_id(list, id)),
        insert_id(list, id).to_multiset() == list.to_multiset().insert(id),
        forall|i: int|
            0 <= i < insert_id(list, id).len() ==> #[trigger] insert_id(list, id)[i] == id
                || list.contains(insert_id(list, id)[i]),
    decreases list.len(),
{
    broadcast use vstd::seq_lib::group_to_multiset_ensures;

    if list.len() == 0 {
        assert(seq![id] =~= list.push(id));
    } else if !bytes_before(id.0@, list.last().0@) {
        let after = list.push(id);
        assert forall|i: int, j: int| 0 <= i < j < after.len() implies !bytes_before(
            (#[trigger] after[j]).0@,
            (#[trigger] after[i]).0@,
        ) by {
            if j == list.len() {
                if bytes_before(id.0@, list[i].0@) {
                    let last = list.last();
                    assert(list[list.len() - 1] == last);
                    if i < list.len() - 1 {
                        assert(!bytes_before(last.0@, list[i].0@));
                        crate::bytes::bytes_before_total(last.0@, list[i].0@);
                        if list[i].0@ == last.0@ {
                        } else {
                            bytes_before_transitive(id.0@, list[i].0@, last.0@);
                        }
                    }
                }
            }
        }
        assert forall|i: int| 0 <= i < after.len() implies #[trigger] after[i] == id
            || list.contains(after[i]) by {
            if i < list.len() {
                assert(list[i] == after[i]);
            }
        }
    } else {
        let front = list.drop_last();
        let last = list.last();
        assert forall|i: int, j: int| 0 <= i < j < front.len() implies !bytes_before(
            (#[trigger] front[j]).0@,
            (#[trigger] front[i]).0@,
        ) by {
            assert(front[i] == list[i] && front[j] == list[j]);
        }
        lemma_inserted(front, id);
        let head = insert_id(front, id);
        let after = head.push(last);
        assert(front.push(last) =~= list);
        assert(after.to_multiset() =~= list.to_multiset().insert(id));
        assert forall|i: int, j: int| 0 <= i < j < after.len() implies !bytes_before(
            (#[trigger] after[j]).0@,
            (#[trigger] after[i]).0@,
        ) by {
            if j == head.len() {
                if head[i] == id {
                    if bytes_before(last.0@, id.0@) {
                        bytes_before_transitive(id.0@, last.0@, id.0@);
                        bytes_before_irreflexive(id.0@);
                    }
                } else {
                    let k = front.index_of(head[i]);
                    assert(list[k] == head[i]);
                    assert(list[list.len() - 1] == last);
                }
            }
        }
        assert forall|i: int| 0 <= i < after.len() implies #[trigger] after[i] == id
            || list.contains(after[i]) by {
            if i < head.len() {
                if head[i] != id {
                    let k = front.index_of(head[i]);
                    assert(list[k] == head[i]);
                }
            } else {
                assert(list[list.len() - 1] == last);
            }
        }
    }
}

/// The votes that are reckoned are those of the period, and all of them, where
/// votes stand in the order of their periods.
pub proof fn votes_of_a_period_are_all_found(
    rows: Seq<(VoteMatrixKey, VoteMatrixEntry)>,
    period_id: VotingPeriodId,
    row: (VoteMatrixKey, VoteMatrixEntry),
)
    requires
        forall|i: int, j: int|
            0 <= i < j < rows.len() ==> (#[trigger] rows[i]).0.period_id.0 <= (
            #[trigger] rows[j]).0.period_id.0,
    ensures
        votes_for(rows, period_id).contains(row) <==> rows.contains(row) && row.0.period_id
            == period_id,
    decreases rows.len(),
{
    if rows.len() > 0 {
        let rest = rows.skip(1);
        assert forall|i: int, j: int| 0 <= i < j < rest.len() implies (
        #[trigger] rest[i]).0.period_id.0 <= (#[trigger] rest[j]).0.period_id.0 by {
            assert(rest[i] == rows[i + 1] && rest[j] == rows[j + 1]);
        }
        votes_of_a_period_are_all_found(rest, period_id, row);
        if rest.contains(row) {
            let i = rest.index_of(row);
            assert(rows[i + 1] == row);
        }
        if rows.contains(row) {
            let i = rows.index_of(row);
            if i > 0 {
                assert(rest[i - 1] == row);
                assert(rows[0].0.period_id.0 <= rows[i].0.period_id.0);
            }
        }
        let found = votes_for(rest, period_id);
        if rows[0].0.period_id.0 == period_id.0 {
            let all = seq![rows[0]] + found;
            assert(votes_for(rows, period_id) == all);
            assert(all[0] == rows[0]);
            if found.contains(row) {
                assert(all[1 + found.index_of(row)] == row);
            }
            if all.contains(row) {
                let i = all.index_of(row);
                if i > 0 {
                    assert(found[i - 1] == row);
                }
            }
        }
    }
}

/// A vote counts with the voter, the decision and the value that it was cast
/// with. Abstentions have no value, and do not count.
pub proof fn votes_count_as_they_were_cast(
    rows: Seq<(VoteMatrixKey, VoteMatrixEntry)>,
    voter: Address,
    id: DecisionId,
    value: Real,
)
    ensures
        casts(rows).contains((voter, id, value)) <==> exists|i: int|
            0 <= i < rows.len() && (#[trigger] rows[i]).0.voter_address == voter
                && rows[i].0.decision_id == id && rows[i].1.value == Some(value),
    decreases rows.len(),
{
    if rows.len() > 0 {
        let front = rows.drop_last();
        votes_count_as_they_were_cast(front, voter, id, value);
        let before = casts(front);
        let after = casts(rows);
        let cast = (voter, id, value);
        if before.contains(cast) {
            let i = choose|i: int|
                0 <= i < front.len() && (#[trigger] front[i]).0.voter_address == voter
                    && front[i].0.decision_id == id && front[i].1.value == Some(value);
            assert(rows[i] == front[i]);
            assert(after[before.index_of(cast)] == cast);
        }
        if after.contains(cast) && !before.contains(cast) {
            let i = after.index_of(cast);
            if i < before.len() {
                assert(before[i] == cast);
            }
            assert(rows[rows.len() - 1] == rows.last());
        }
        if exists|i: int|
            0 <= i < rows.len() && (#[trigger] rows[i]).0.voter_address == voter
                && rows[i].0.decision_id == id && rows[i].1.value == Some(value) {
            let i = choose|i: int|
                0 <= i < rows.len() && (#[trigger] rows[i]).0.voter_address == voter
                    && rows[i].0.decision_id == id && rows[i].1.value == Some(value);
            if i < front.len() {
                assert(front[i] == rows[i]);
            } else {
                assert(after[after.len() - 1] == cast);
            }
        }
    }
}

/// A period is reckoned once: one with outcomes is left alone. One that nobody
/// voted in is settled without a reckoning. Else, where somebody has a
/// reputation, the votes are handed over: each decision of the period once, in
/// order, and to be reckoned as its type asks; each vote that has a value; and
/// those with a reputation above zero, each with that reputation.
pub proof fn plans_hand_over_the_period(
    plan: ConsensusPlan,
    votes: Seq<(VoteMatrixKey, VoteMatrixEntry)>,
    outcomes: Seq<(DecisionId, DecisionOutcome)>,
    reputation: Reputations,
    decisions: DecisionsView,
    period: VotingPeriod,
    total_weight: Real,
    timestamp: u64,
    height: u32,
)
    requires
        is_plan(
            plan,
            votes,
            outcomes,
            reputation,
            decisions,
            period,
            total_weight,
            timestamp,
            height,
        ),
    ensures
        outcomes_for(outcomes, period.id).len() > 0 ==> plan is Skip,
        outcomes_for(outcomes, period.id).len() == 0 && votes_for(votes, period.id).len() == 0
            ==> plan is Settled,
        plan is Reckon ==> {
            let input = plan->Reckon_0;
            &&& input.vote_count == votes_for(votes, period.id).len()
            &&& input.decisions@.len() == period.decision_ids@.len()
            &&& forall|k: int| #![trigger input.decisions@[k]]
                0 <= k < input.decisions@.len() ==> period.decision_ids@.contains(
                    input.decisions@[k].0,
                )
            &&& forall|id: DecisionId| #[trigger]
                period.decision_ids@.contains(id) ==> exists|k: int|
                    0 <= k < input.decisions@.len() && (#[trigger] input.decisions@[k]).0 == id
            &&& forall|voter: Address| #[trigger]
                has_key(input.voters@, voter) <==> reputation.dom().contains(voter)
                    && 0 < reputation[voter].rank() && !reputation[voter].spec_is_nan()
            &&& forall|k: int|
                0 <= k < input.voters@.len() ==> (#[trigger] input.voters@[k]).1
                    == reputation[input.voters@[k].0]
            &&& forall|k: int, voter: Address, id: DecisionId, value: Real|
                0 <= k < votes_for(votes, period.id).len() && (#[trigger] votes_for(
                    votes,
                    period.id,
                )[k]).1.value == Some(value) && votes_for(votes, period.id)[k].0.voter_address
                    == voter && votes_for(votes, period.id)[k].0.decision_id == id
                    ==> #[trigger] input.votes@.contains((voter, id, value))
        },
        outcomes_for(outcomes, period.id).len() == 0 && votes_for(votes, period.id).len() > 0 && (
        exists|voter: Address| #[trigger]
            reputation.dom().contains(voter) && 0 < reputation[voter].rank()
                && !reputation[voter].spec_is_nan()) && 0 < total_weight.rank() ==> plan is Reckon,
{
    sorting_keeps_decisions(period.decision_ids@);
    let found = votes_for(votes, period.id);
    if plan is Reckon {
        let input = plan->Reckon_0;
        let sorted = sorted_ids(period.decision_ids@);
        assert forall|k: int| #![trigger input.decisions@[k]]
            0 <= k < input.decisions@.len() implies period.decision_ids@.contains(
            input.decisions@[k].0,
        ) by {
            assert(sorted.contains(sorted[k]));
        }
        assert forall|id: DecisionId| #[trigger]
            period.decision_ids@.contains(id) implies exists|k: int|
            0 <= k < input.decisions@.len() && (#[trigger] input.decisions@[k]).0 == id by {
            let k = sorted.index_of(id);
            assert(input.decisions@[k].0 == id);
        }
        let weights = positives(reputation);
        let rows = input.voters@;
        assert forall|voter: Address| #[trigger] has_key(rows, voter) <==> reputation.dom().contains(
            voter,
        ) && 0 < reputation[voter].rank() && !reputation[voter].spec_is_nan() by {
            assert(rows_map(rows).dom().contains(voter) <==> weights.dom().contains(voter));
        }
        assert forall|k: int| 0 <= k < rows.len() implies (#[trigger] rows[k]).1
            == reputation[rows[k].0] by {
            crate::table::lemma_row(rows, k);
            assert(weights.dom().contains(rows[k].0));
        }
        assert forall|k: int, voter: Address, id: DecisionId, value: Real|
            0 <= k < found.len() && (#[trigger] found[k]).1.value == Some(value)
                && found[k].0.voter_address == voter && found[k].0.decision_id
                == id implies #[trigger] input.votes@.contains((voter, id, value)) by {
            votes_count_as_they_were_cast(found, voter, id, value);
        }
    }
    if exists|voter: Address| #[trigger]
        reputation.dom().contains(voter) && 0 < reputation[voter].rank()
            && !reputation[voter].spec_is_nan() {
        let voter = choose|voter: Address| #[trigger]
            reputation.dom().contains(voter) && 0 < reputation[voter].rank()
                && !reputation[voter].spec_is_nan();
        assert(positives(reputation).dom().contains(voter));
    }
}

/// A scaled decision of a period whose votes are reckoned is handed over as a
/// scaled one, a binary one as a binary one, and a category with the number of
/// its options.
pub proof fn plans_follow_the_types(
    plan: ConsensusPlan,
    votes: Seq<(VoteMatrixKey, VoteMatrixEntry)>,
    outcomes: Seq<(DecisionId, DecisionOutcome)>,
    reputation: Reputations,
    decisions: DecisionsView,
    period: VotingPeriod,
    total_weight: Real,
    timestamp: u64,
    height: u32,
    k: int,
)
    requires
        is_plan(
            plan,
            votes,
            outcomes,
            reputation,
            decisions,
            period,
            total_weight,
            timestamp,
            height,
        ),
        plan is Reckon,
        0 <= k < plan->Reckon_0.decisions@.len(),
        ({
            let id = plan->Reckon_0.decisions@[k].0;
            &&& decisions.periods.dom().contains(id.period())
            &&& decisions.periods[id.period()].dom().contains(id)
            &&& decisions.periods[id.period()][id][0].decision is Some
        }),
    ensures
        ({
            let (id, reckoning) = plan->Reckon_0.decisions@[k];
            match decisions.periods[id.period()][id][0].decision->0.decision_type {
                DecisionType::Binary => reckoning == Reckoning::Binary,
                DecisionType::Scaled { min, max, increment } => reckoning == Reckoning::Scaled,
                DecisionType::Category { options } => options@.len() <= u16::MAX ==> reckoning
                    == Reckoning::Categorical(options@.len() as u16),
            }
        }),
{
}

/// A period that nobody voted in: each of its decisions gets one half, and nobody
/// gains or loses reputation.
pub proof fn unvoted_periods_get_the_default(
    plan: ConsensusPlan,
    votes: Seq<(VoteMatrixKey, VoteMatrixEntry)>,
    outcomes: Seq<(DecisionId, DecisionOutcome)>,
    reputation: Reputations,
    decisions: DecisionsView,
    period: VotingPeriod,
    total_weight: Real,
    timestamp: u64,
    height: u32,
)
    requires
        is_plan(
            plan,
            votes,
            outcomes,
            reputation,
            decisions,
            period,
            total_weight,
            timestamp,
            height,
        ),
        plan is Settled,
    ensures
        ({
            let r = plan->Settled_0;
            &&& r.period_id == period.id
            &&& r.block_height == height
            &&& r.timestamp == timestamp
            &&& r.period_stats.period_id == period.id
            &&& r.updated_reputations@.len() == 0
            &&& r.decision_outcomes@.len() == period.decision_ids@.len()
            &&& r.decision_resolutions@.len() == period.decision_ids@.len()
            &&& forall|k: int| #![trigger r.decision_outcomes@[k]]
                0 <= k < period.decision_ids@.len() ==> {
                    &&& r.decision_outcomes@[k].decision_id == period.decision_ids@[k]
                    &&& r.decision_outcomes@[k].period_id == period.id
                    &&& r.decision_outcomes@[k].outcome_value.bits == 0x3fe0_0000_0000_0000
                    &&& !r.decision_outcomes@[k].was_voted_on
                    &&& r.decision_outcomes@[k].categorical_winner is None
                    &&& r.decision_resolutions@[k].decision_id == period.decision_ids@[k]
                    &&& r.decision_resolutions@[k].outcome_value.bits == 0x3fe0_0000_0000_0000
                }
        }),
{
}

proof fn lemma_missing(
    ids: Seq<DecisionId>,
    reckoned: Seq<(DecisionId, Option<Real>)>,
    period_id: VotingPeriodId,
)
    ensures
        ({
            let missing = missing_outcomes(ids, reckoned, period_id);
            &&& forall|k: int| #![trigger missing[k]]
                0 <= k < missing.len() ==> {
                    &&& ids.contains(missing[k].decision_id)
                    &&& !has_key(reckoned, missing[k].decision_id)
                    &&& missing[k].period_id == period_id
                    &&& missing[k].outcome_value.bits == 0x3fe0_0000_0000_0000
                    &&& !missing[k].was_voted_on
                }
            &&& forall|id: DecisionId| #[trigger]
                ids.contains(id) && !has_key(reckoned, id) ==> exists|k: int|
                    0 <= k < missing.len() && (#[trigger] missing[k]).decision_id == id
        }),
    decreases ids.len(),
{
    if ids.len() > 0 {
        let front = ids.drop_last();
        lemma_missing(front, reckoned, period_id);
        let before = missing_outcomes(front, reckoned, period_id);
        let missing = missing_outcomes(ids, reckoned, period_id);
        assert(ids[ids.len() - 1] == ids.last());
        assert forall|k: int| #![trigger missing[k]] 0 <= k < missing.len() implies {
            &&& ids.contains(missing[k].decision_id)
            &&& !has_key(reckoned, missing[k].decision_id)
            &&& missing[k].period_id == period_id
            &&& missing[k].outcome_value.bits == 0x3fe0_0000_0000_0000
            &&& !missing[k].was_voted_on
        } by {
            if k < before.len() {
                assert(missing[k] == before[k]);
                let j = front.index_of(before[k].decision_id);
                assert(ids[j] == before[k].decision_id);
            }
        }
        assert forall|id: DecisionId| #[trigger]
            ids.contains(id) && !has_key(reckoned, id) implies exists|k: int|
            0 <= k < missing.len() && (#[trigger] missing[k]).decision_id == id by {
            if id == ids.last() {
                assert(missing[missing.len() - 1].decision_id == id);
            } else {
                let j = ids.index_of(id);
                assert(front[j] == id);
                assert(front.contains(id));
                let k = choose|k: int|
                    0 <= k < before.len() && (#[trigger] before[k]).decision_id == id;
                assert(missing[k].decision_id == id);
            }
        }
    }
}

/// What comes of a reckoning: each decision that was reckoned gets the outcome
/// that the reckoning gave, or one half where all abstained; each other decision
/// of the period gets one half, and counts as not voted on. What decisions are
/// resolved to is their outcome, and reputations are set as the reckoning says.
pub proof fn every_decision_gets_its_outcome(
    r: ConsensusResult,
    stats: Map<VotingPeriodId, VotingPeriodStats>,
    reputation: Reputations,
    period: VotingPeriod,
    vote_count: u64,
    total_weight: Real,
    reckoned: Reckoned,
    timestamp: u64,
    height: u32,
)
    requires
        is_finished(
            r,
            stats,
            reputation,
            period,
            vote_count,
            total_weight,
            reckoned,
            timestamp,
            height,
        ),
    ensures
        r.period_id == period.id,
        r.period_stats.period_id == period.id || stats.dom().contains(period.id),
        r.block_height == height,
        r.timestamp == timestamp,
        r.updated_reputations@ == reckoned.updated_reputations@,
        r.decision_outcomes@.len() >= reckoned.outcomes@.len(),
        forall|k: int| #![trigger reckoned.outcomes@[k]]
            0 <= k < reckoned.outcomes@.len() ==> {
                let o = r.decision_outcomes@[k];
                &&& o.decision_id == reckoned.outcomes@[k].0
                &&& o.period_id == period.id
                &&& o.was_voted_on
                &&& match reckoned.outcomes@[k].1 {
                    Some(value) => o.outcome_value == value,
                    None => o.outcome_value.bits == 0x3fe0_0000_0000_0000,
                }
                &&& o.total_votes == vote_count
                &&& o.total_reputation_weight == total_weight
                &&& o.categorical_winner is Some
                    <==> reckoned.categorical_winners@.dom().contains(o.decision_id)
                &&& o.categorical_winner is Some ==> o.categorical_winner->0
                    == reckoned.categorical_winners@[o.decision_id]
            },
        forall|k: int| #![trigger r.decision_outcomes@[k]]
            reckoned.outcomes@.len() <= k < r.decision_outcomes@.len() ==> {
                let o = r.decision_outcomes@[k];
                &&& period.decision_ids@.contains(o.decision_id)
                &&& o.period_id == period.id
                &&& o.outcome_value.bits == 0x3fe0_0000_0000_0000
                &&& !o.was_voted_on
            },
        forall|id: DecisionId| #[trigger]
            period.decision_ids@.contains(id) ==> exists|k: int|
                0 <= k < r.decision_outcomes@.len() && (
                #[trigger] r.decision_outcomes@[k]).decision_id == id,
        r.decision_resolutions@.len() == r.decision_outcomes@.len(),
        forall|k: int| #![trigger r.decision_resolutions@[k]]
            0 <= k < r.decision_outcomes@.len() ==> {
                &&& r.decision_resolutions@[k].decision_id == r.decision_outcomes@[k].decision_id
                &&& r.decision_resolutions@[k].outcome_value
                    == r.decision_outcomes@[k].outcome_value
            },
{
    let head = reckoned_outcomes(reckoned, period.id, vote_count, total_weight);
    let tail = missing_outcomes(period.decision_ids@, reckoned.outcomes@, period.id);
    let all = r.decision_outcomes@;
    lemma_missing(period.decision_ids@, reckoned.outcomes@, period.id);
    assert forall|k: int| #![trigger all[k]] reckoned.outcomes@.len() <= k < all.len() implies {
        let o = all[k];
        &&& period.decision_ids@.contains(o.decision_id)
        &&& o.period_id == period.id
        &&& o.outcome_value.bits == 0x3fe0_0000_0000_0000
        &&& !o.was_voted_on
    } by {
        assert(all[k] == tail[k - head.len()]);
    }
    assert forall|id: DecisionId| #[trigger] period.decision_ids@.contains(id) implies exists|k: int|
        0 <= k < all.len() && (#[trigger] all[k]).decision_id == id by {
        if has_key(reckoned.outcomes@, id) {
            let k = choose|k: int| row_has_key(reckoned.outcomes@, id, k);
            assert(row_has_key(reckoned.outcomes@, id, k));
            assert(all[k] == head[k]);
            assert(all[k].decision_id == id);
        } else {
            let k = choose|k: int|
                0 <= k < tail.len() && (#[trigger] tail[k]).decision_id == id;
            assert(all[head.len() + k] == tail[k]);
            assert(all[head.len() + k].decision_id == id);
        }
    }
}

/// The reputation of a voter afterwards is what the reckoning says last of them,
/// or none where that is not above zero; of the others it stays.
pub proof fn reputations_are_set_as_reckoned(
    pre: Reputations,
    updates: Seq<(Address, Real)>,
    voter: Address,
)
    ensures
        !has_key(updates, voter) ==> {
            &&& updated(pre, updates).dom().contains(voter) <==> pre.dom().contains(voter)
            &&& pre.dom().contains(voter) ==> updated(pre, updates)[voter] == pre[voter]
        },
        forall|k: int|
            0 <= k < updates.len() && (#[trigger] updates[k]).0 == voter && (forall|j: int|
                k < j < updates.len() ==> (#[trigger] updates[j]).0 != voter) ==> {
                &&& updated(pre, updates).dom().contains(voter) <==> 0 < updates[k].1.rank()
                    && !updates[k].1.spec_is_nan()
                &&& updated(pre, updates).dom().contains(voter) ==> updated(pre, updates)[voter]
                    == updates[k].1
            },
    decreases updates.len(),
{
    if updates.len() > 0 {
        let front = updates.drop_last();
        reputations_are_set_as_reckoned(pre, front, voter);
        if !has_key(updates, voter) {
            if has_key(front, voter) {
                let k = choose|k: int| row_has_key(front, voter, k);
                assert(row_has_key(updates, voter, k));
            }
            assert(row_has_key(updates, updates.last().0, updates.len() - 1));
        }
        assert forall|k: int|
            0 <= k < updates.len() && (#[trigger] updates[k]).0 == voter && (forall|j: int|
                k < j < updates.len() ==> (#[trigger] updates[j]).0 != voter) implies {
            &&& updated(pre, updates).dom().contains(voter) <==> 0 < updates[k].1.rank()
                && !updates[k].1.spec_is_nan()
            &&& updated(pre, updates).dom().contains(voter) ==> updated(pre, updates)[voter]
                == updates[k].1
        } by {
            if k < front.len() {
                assert(front[k] == updates[k]);
                assert(updates[updates.len() - 1].0 != voter);
                assert forall|j: int| k < j < front.len() implies (#[trigger] front[j]).0
                    != voter by {
                    assert(front[j] == updates[j]);
                }
            }
        }
    }
}

/// The voter who takes up what is missing from the total has the greatest
/// reputation.
pub proof fn the_largest_voter_has_the_most(rows: Seq<(Address, Real)>)
    requires
        ascending(rows),
        rows.len() > 0,
        forall|i: int| 0 <= i < rows.len() ==> !(#[trigger] rows[i]).1.spec_is_nan(),
    ensures
        largest_in(rows) is Some,
        exists|k: int|
            0 <= k < rows.len() && (#[trigger] rows[k]).0 == largest_in(rows)->0 && (forall|i: int|
                0 <= i < rows.len() ==> (#[trigger] rows[i]).1.rank() <= rows[k].1.rank())
                && (forall|i: int| k < i < rows.len() ==> (#[trigger] rows[i]).1.rank()
                < rows[k].1.rank()),
    decreases rows.len(),
{
    let front = rows.drop_last();
    let last = rows.last();
    if front.len() == 0 {
        assert(rows[0].0 == largest_in(rows)->0);
    } else {
        assert forall|i: int, j: int| 0 <= i < j < front.len() implies bytes_before(
            (#[trigger] front[i]).0.key_bytes(),
            (#[trigger] front[j]).0.key_bytes(),
        ) by {
            assert(front[i] == rows[i] && front[j] == rows[j]);
            assert(bytes_before(rows[i].0.key_bytes(), rows[j].0.key_bytes()));
        }
        assert forall|i: int| 0 <= i < front.len() implies !(
        #[trigger] front[i]).1.spec_is_nan() by {
            assert(front[i] == rows[i]);
        }
        the_largest_voter_has_the_most(front);
        let a = largest_in(front)->0;
        let k = choose|k: int|
            0 <= k < front.len() && (#[trigger] front[k]).0 == a && (forall|i: int|
                0 <= i < front.len() ==> (#[trigger] front[i]).1.rank() <= front[k].1.rank())
                && (forall|i: int| k < i < front.len() ==> (#[trigger] front[i]).1.rank()
                < front[k].1.rank());
        let j = choose|j: int| row_has_key(front, a, j);
        assert(row_has_key(front, a, k));
        assert(j == k) by {
            bytes_before_irreflexive(a.key_bytes());
            if j < k {
                assert(bytes_before(front[j].0.key_bytes(), front[k].0.key_bytes()));
            }
            if k < j {
                assert(bytes_before(front[k].0.key_bytes(), front[j].0.key_bytes()));
            }
        }
        assert(rows[k] == front[k]);
        assert(!rows[k].1.spec_is_nan() && !rows[rows.len() - 1].1.spec_is_nan());
        let n = rows.len() - 1;
        if last.1.less(front[k].1) {
            assert(rows[k].0 == largest_in(rows)->0);
            assert forall|i: int| 0 <= i < rows.len() implies (#[trigger] rows[i]).1.rank()
                <= rows[k].1.rank() by {
                if i < n {
                    assert(front[i] == rows[i]);
                }
            }
            assert forall|i: int| k < i < rows.len() implies (#[trigger] rows[i]).1.rank()
                < rows[k].1.rank() by {
                if i < n {
                    assert(front[i] == rows[i]);
                }
            }
        } else {
            assert(rows[n].0 == largest_in(rows)->0);
            assert forall|i: int| 0 <= i < rows.len() implies (#[trigger] rows[i]).1.rank()
                <= rows[n].1.rank() by {
                if i < n {
                    assert(front[i] == rows[i]);
                }
            }
        }
    }
}

/// The outcome that is stored of a decision is the one that is listed last for
/// it; those of other decisions stay.
pub proof fn outcomes_are_stored(
    outcomes: Map<DecisionId, DecisionOutcome>,
    list: Seq<DecisionOutcome>,
    id: DecisionId,
)
    ensures
        (forall|k: int| 0 <= k < list.len() ==> (#[trigger] list[k]).decision_id != id) ==> {
            &&& with_outcomes(outcomes, list).dom().contains(id) <==> outcomes.dom().contains(id)
            &&& outcomes.dom().contains(id) ==> with_outcomes(outcomes, list)[id] == outcomes[id]
        },
        forall|k: int|
            0 <= k < list.len() && (#[trigger] list[k]).decision_id == id && (forall|j: int|
                k < j < list.len() ==> (#[trigger] list[j]).decision_id != id) ==> {
                &&& with_outcomes(outcomes, list).dom().contains(id)
                &&& with_outcomes(outcomes, list)[id] == list[k]
            },
    decreases list.len(),
{
    if list.len() > 0 {
        let front = list.drop_last();
        outcomes_are_stored(outcomes, front, id);
        if forall|k: int| 0 <= k < list.len() ==> (#[trigger] list[k]).decision_id != id {
            assert forall|k: int| 0 <= k < front.len() implies (#[trigger] front[k]).decision_id
                != id by {
                assert(front[k] == list[k]);
            }
            assert(list[list.len() - 1] == list.last());
        }
        assert forall|k: int|
            0 <= k < list.len() && (#[trigger] list[k]).decision_id == id && (forall|j: int|
                k < j < list.len() ==> (#[trigger] list[j]).decision_id != id) implies {
            &&& with_outcomes(outcomes, list).dom().contains(id)
            &&& with_outcomes(outcomes, list)[id] == list[k]
        } by {
            if k < front.len() {
                assert(front[k] == list[k]);
                assert(list[list.len() - 1].decision_id != id);
                assert forall|j: int| k < j < front.len() implies (
                #[trigger] front[j]).decision_id != id by {
                    assert(front[j] == list[j]);
                }
            }
        }
    }
}

/// A decision that was voted on is resolved: that is the last thing that happened
/// to it, at the height of the block, with the value that is listed for it. To
/// other decisions nothing happens.
pub proof fn decisions_are_resolved_to_their_outcome(
    view: DecisionsView,
    list: Seq<DecisionResolutionEntry>,
    height: u32,
    after: DecisionsView,
    id: DecisionId,
)
    requires
        resolved_all(view, list, height) == Ok::<DecisionsView, Error>(after),
    ensures
        after == (DecisionsView { histories: after.histories, ..view }),
        forall|k: int| #![trigger list[k]]
            0 <= k < list.len() && list[k].decision_id == id ==> {
                &&& after.histories.dom().contains(id)
                &&& after.histories[id].len() > 0
                &&& after.histories[id].last().0 == DecisionState::Resolved
                &&& after.histories[id].last().1 == height
                &&& after.histories[id].last().2 == Some(list[k].outcome_value)
                &&& view.histories.dom().contains(id)
                &&& view.histories[id].len() > 0
                &&& view.histories[id].last().0 == DecisionState::Voting
                &&& after.histories[id].drop_last() == view.histories[id]
            },
        (forall|k: int| #![trigger list[k]] 0 <= k < list.len() ==> list[k].decision_id != id)
            ==> {
            &&& after.histories.dom().contains(id) <==> view.histories.dom().contains(id)
            &&& after.histories[id] == view.histories[id]
        },
    decreases list.len(),
{
    if list.len() > 0 {
        let front = list.drop_last();
        let mid = resolved_all(view, front, height)->Ok_0;
        decisions_are_resolved_to_their_outcome(view, front, height, mid, id);
        let last = list.last();
        assert(list[list.len() - 1] == last);
        if exists|k: int| #![trigger front[k]] 0 <= k < front.len() && front[k].decision_id == id {
            let k = choose|k: int| #![trigger front[k]]
                0 <= k < front.len() && front[k].decision_id == id;
            assert(mid.histories[id].last().0 == DecisionState::Resolved);
            assert(last.decision_id != id);
        }
        assert forall|k: int| #![trigger list[k]]
            0 <= k < list.len() && list[k].decision_id == id implies {
            &&& after.histories.dom().contains(id)
            &&& after.histories[id].len() > 0
            &&& after.histories[id].last().0 == DecisionState::Resolved
            &&& after.histories[id].last().1 == height
            &&& after.histories[id].last().2 == Some(list[k].outcome_value)
            &&& view.histories.dom().contains(id)
            &&& view.histories[id].len() > 0
            &&& view.histories[id].last().0 == DecisionState::Voting
            &&& after.histories[id].drop_last() == view.histories[id]
        } by {
            if k < front.len() {
                assert(front[k] == list[k]);
            } else {
                assert forall|j: int| #![trigger front[j]]
                    0 <= j < front.len() implies front[j].decision_id != id by {}
                assert(after.histories[id].drop_last() =~= mid.histories[id]);
            }
        }
        if forall|k: int| #![trigger list[k]] 0 <= k < list.len() ==> list[k].decision_id != id {
            assert forall|j: int| #![trigger front[j]]
                0 <= j < front.len() implies front[j].decision_id != id by {
                assert(front[j] == list[j]);
            }
        }
    }
}

/// A reckoning is stored only where reputation is kept: neither does the sum
/// drift further in the block than it may, nor further from the anchor. It is
/// then stored under its period, with its outcomes, and each reputation that is
/// left is above zero. What undoes it has what there was before.
pub proof fn stored_reckonings_keep_reputation(
    before: Tally,
    after: Tally,
    result: ConsensusResult,
    sums: ReputationSums,
    anchored: Option<Real>,
    r: Result<ConsensusUndoEntry, Error>,
)
    requires
        is_committed(before, after, result, sums, anchored, r),
        r is Ok,
    ensures
        !(sums.block_limit.less(sums.block_drift)),
        !(sums.anchor_limit.less(sums.anchor_drift)),
        after.voting.stats.dom().contains(result.period_stats.period_id),
        after.voting.stats[result.period_stats.period_id] == result.period_stats,
        after.voting.votes == before.voting.votes,
        after.voting.ballots == before.voting.ballots,
        forall|id: VotingPeriodId|
            id != result.period_stats.period_id ==> (#[trigger] after.voting.stats.dom().contains(id)
                <==> before.voting.stats.dom().contains(id)) && after.voting.stats[id]
                == before.voting.stats[id],
        after.voting.outcomes == with_outcomes(
            before.voting.outcomes,
            result.decision_outcomes@,
        ),
        resolved_all(
            before.decisions,
            result.decision_resolutions@,
            result.block_height,
        ) == Ok::<DecisionsView, Error>(after.decisions),
        forall|a: Address| #[trigger]
            after.reputation.dom().contains(a) ==> 0 < after.reputation[a].rank()
                && !after.reputation[a].spec_is_nan(),
        anchored is None ==> after.reputation == positives(
            updated(positives(before.reputation), result.updated_reputations@),
        ),
        forall|a: Address|
            Some(a) != largest_in(
                rows_of(updated(positives(before.reputation), result.updated_reputations@)),
            ) ==> (#[trigger] after.reputation.dom().contains(a) <==> positives(
                updated(positives(before.reputation), result.updated_reputations@),
            ).dom().contains(a)),
        r->Ok_0.period_id == result.period_id,
        r->Ok_0.had_period_stats <==> before.voting.stats.dom().contains(result.period_id),
        forall|a: Address| #[trigger]
            r->Ok_0.pre_consensus_reputation@.dom().contains(a) <==> before.reputation.dom().contains(
                a,
            ) && 0 < before.reputation[a].rank() && !before.reputation[a].spec_is_nan(),
        forall|a: Address| #[trigger]
            r->Ok_0.pre_consensus_reputation@.dom().contains(a)
                ==> r->Ok_0.pre_consensus_reputation@[a] == before.reputation[a],
        r->Ok_0.decision_outcome_ids@.len() == result.decision_outcomes@.len(),
        forall|k: int|
            0 <= k < result.decision_outcomes@.len() ==> (
            #[trigger] r->Ok_0.decision_outcome_ids@[k])
                == result.decision_outcomes@[k].decision_id,
{
}

/// A reckoning under which the sum of reputations drifts further than it may is
/// not stored.
pub proof fn drifting_reckonings_are_refused(
    before: Tally,
    after: Tally,
    result: ConsensusResult,
    sums: ReputationSums,
    anchored: Option<Real>,
    r: Result<ConsensusUndoEntry, Error>,
)
    requires
        is_committed(before, after, result, sums, anchored, r),
        sums.block_limit.less(sums.block_drift) || sums.anchor_limit.less(sums.anchor_drift),
    ensures
        r is Err,
{
}

} // verus!
