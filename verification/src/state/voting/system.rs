//! Reckoning the votes of a period.
//!
//! The numbers are worked out elsewhere. What goes into them and what is made
//! of them is decided here.

use vstd::prelude::*;

use crate::bytes::{boxed, boxed_copy, bytes_before, bytes_before_irreflexive, is_before};
use crate::state::decisions::database::{entries_of, DecisionsView};
use crate::state::decisions::types::{current_of, minus_one, zero, DecisionState, DecisionType};
use crate::state::decisions::{Dbs, DecisionId};
use crate::state::reputation::{
    is_positive, not_above_zero, positive, positives, reputation_of, ReputationDbs, Reputations,
};
use crate::state::voting::database::{outcomes_for, votes_for, VotingDatabases, VotingView};
use crate::state::voting::types::{
    ConsensusResult, DecisionOutcome, DecisionResolutionEntry, VoteMatrixEntry, VoteMatrixKey,
    VotingPeriod, VotingPeriodId, VotingPeriodStats,
};
use crate::state::{Error, Reason};
use crate::table::{ascending, has_key, row_has_key, rows_map, rows_of, Key, Table};
use crate::types::transaction::add_address;
use crate::types::{Address, Real};

verus! {

/// One half: the outcome of a decision that nobody decides.
pub open spec fn half() -> Real {
    Real { bits: 0x3fe0_0000_0000_0000 }
}

/// One: full confidence, and the top of the scale.
pub open spec fn full() -> Real {
    Real { bits: 0x3ff0_0000_0000_0000 }
}

/// The reputations after the votes are reckoned: those above zero are set, the
/// others go.
pub open spec fn updated(pre: Reputations, updates: Seq<(Address, Real)>) -> Reputations
    decreases updates.len(),
{
    if updates.len() == 0 {
        pre
    } else {
        let before = updated(pre, updates.drop_last());
        let (address, rep) = updates.last();
        if positive(rep) {
            before.insert(address, rep)
        } else {
            before.remove(address)
        }
    }
}

/// The reputations after the votes are reckoned.
pub fn compute_post_consensus_reputation(
    pre: &Table<Address, Real>,
    updates: &Vec<(Address, Real)>,
) -> (r: Table<Address, Real>)
    ensures
        r@ == updated(pre@, updates@),
{
    let mut post = copy_reputations(pre);
    let mut i: usize = 0;
    assert(updates@.subrange(0, 0) =~= Seq::empty());
    while i < updates.len()
        invariant
            i <= updates@.len(),
            post@ == updated(pre@, updates@.subrange(0, i as int)),
        decreases updates@.len() - i,
    {
        proof {
            assert(updates@.subrange(0, i + 1).drop_last() =~= updates@.subrange(0, i as int));
        }
        let (address, rep) = updates[i];
        if is_positive(rep) {
            post.put(address, rep);
        } else {
            let _ = post.delete(&address);
        }
        i += 1;
    }
    assert(updates@.subrange(0, i as int) =~= updates@);
    post
}

fn copy_reputations(from: &Table<Address, Real>) -> (r: Table<Address, Real>)
    ensures
        r@ == from@,
{
    from.rows_facts();
    let ghost rows = from.rows();
    let mut r: Table<Address, Real> = Table::new();
    let mut i: usize = 0;
    while i < from.len()
        invariant
            i <= rows.len(),
            rows == from.rows(),
            forall|j: int|
                0 <= j < rows.len() ==> from@.dom().contains((#[trigger] rows[j]).0)
                    && from@[rows[j].0] == rows[j].1,
            forall|a: Address| #[trigger]
                r@.dom().contains(a) <==> exists|j: int| 0 <= j < i && (#[trigger] rows[j]).0 == a,
            forall|a: Address| #[trigger]
                r@.dom().contains(a) ==> r@[a] == from@[a],
        decreases rows.len() - i,
    {
        let row = from.row(i);
        let ghost before = r@;
        r.put(row.0, row.1);
        proof {
            assert forall|a: Address| #[trigger] r@.dom().contains(a) <==> exists|j: int|
                0 <= j < i + 1 && (#[trigger] rows[j]).0 == a by {
                if before.dom().contains(a) {
                    let j = choose|j: int| 0 <= j < i && (#[trigger] rows[j]).0 == a;
                    assert(0 <= j < i + 1);
                }
                if a == row.0 {
                    assert(rows[i as int].0 == a);
                }
            }
        }
        i += 1;
    }
    proof {
        assert forall|a: Address| r@.dom().contains(a) <==> from@.dom().contains(a) by {
            if from@.dom().contains(a) {
                assert(has_key(rows, a));
                let j = choose|j: int| row_has_key(rows, a, j);
                assert(rows[j].0 == a);
            }
        }
        assert(r@ =~= from@);
    }
    r
}

/// Of rows in the order of addresses, the last among those with the greatest
/// reputation.
pub open spec fn largest_in(rows: Seq<(Address, Real)>) -> Option<Address>
    decreases rows.len(),
{
    if rows.len() == 0 {
        None
    } else {
        let before = rows.drop_last();
        match largest_in(before) {
            None => Some(rows.last().0),
            Some(a) => {
                let i = choose|i: int| row_has_key(before, a, i);
                if rows.last().1.less(before[i].1) {
                    Some(a)
                } else {
                    Some(rows.last().0)
                }
            },
        }
    }
}

proof fn lemma_largest_is_there(rows: Seq<(Address, Real)>)
    ensures
        rows.len() > 0 ==> largest_in(rows) is Some && has_key(rows, largest_in(rows)->0),
        rows.len() == 0 ==> largest_in(rows) is None,
    decreases rows.len(),
{
    if rows.len() > 0 {
        let before = rows.drop_last();
        lemma_largest_is_there(before);
        assert(row_has_key(rows, rows.last().0, rows.len() - 1));
        if before.len() > 0 {
            let a = largest_in(before)->0;
            let i = choose|i: int| row_has_key(before, a, i);
            assert(row_has_key(rows, a, i));
        }
    }
}

/// The voter who takes up what is missing from, or over, the total: the one
/// with the greatest reputation, and of several the last by address.
pub fn largest_voter(post: &Table<Address, Real>) -> (r: Option<Address>)
    ensures
        r == largest_in(post.rows()),
        r is Some ==> post@.dom().contains(r->0),
        r is None ==> post@ == Map::<Address, Real>::empty(),
{
    post.rows_facts();
    let ghost rows = post.rows();
    let mut best: Option<(Address, Real)> = None;
    let mut i: usize = 0;
    assert(rows.subrange(0, 0) =~= Seq::empty());
    while i < post.len()
        invariant
            i <= rows.len(),
            rows == post.rows(),
            ascending(rows),
            match best {
                Some(b) => {
                    &&& largest_in(rows.subrange(0, i as int)) == Some(b.0)
                    &&& exists|j: int| 0 <= j < i && #[trigger] rows[j] == b
                },
                None => i == 0,
            },
        decreases rows.len() - i,
    {
        let row = post.row(i);
        proof {
            assert(rows.subrange(0, i + 1).drop_last() =~= rows.subrange(0, i as int));
            assert(rows.subrange(0, i + 1).last() == rows[i as int]);
        }
        match best {
            None => {
                best = Some(*row);
                assert(rows[i as int] == *row);
            },
            Some(b) => {
                proof {
                    let before = rows.subrange(0, i as int);
                    let j = choose|j: int| 0 <= j < i && #[trigger] rows[j] == b;
                    assert(row_has_key(before, b.0, j));
                    let k = choose|k: int| row_has_key(before, b.0, k);
                    lemma_one_row(rows, j, k);
                }
                if !row.1.is_less(b.1) {
                    best = Some(*row);
                    assert(rows[i as int] == *row);
                } else {
                    proof {
                        let j = choose|j: int| 0 <= j < i && #[trigger] rows[j] == b;
                        assert(0 <= j < i + 1);
                    }
                }
            },
        }
        i += 1;
    }
    proof {
        assert(rows.subrange(0, i as int) =~= rows);
        lemma_largest_is_there(rows);
        if rows.len() == 0 {
            assert forall|a: Address| !post@.dom().contains(a) by {
                if post@.dom().contains(a) {
                    assert(has_key(rows, a));
                }
            }
            assert(post@ =~= Map::empty());
        }
    }
    match best {
        Some(b) => Some(b.0),
        None => None,
    }
}

proof fn lemma_one_row(rows: Seq<(Address, Real)>, j: int, k: int)
    requires
        ascending(rows),
        0 <= j < rows.len(),
        0 <= k < rows.len(),
        rows[j].0 == rows[k].0,
    ensures
        j == k,
{
    if j < k {
        assert(bytes_before(rows[j].0.key_bytes(), rows[k].0.key_bytes()));
        bytes_before_irreflexive(rows[j].0.key_bytes());
    } else if k < j {
        assert(bytes_before(rows[k].0.key_bytes(), rows[j].0.key_bytes()));
        bytes_before_irreflexive(rows[j].0.key_bytes());
    }
}

/// The sums of the reputations before and after, and how far they drift.
#[derive(Clone, Copy, Debug)]
pub struct ReputationSums {
    pub pre_sum: Real,
    pub post_sum: Real,
    pub block_drift: Real,
    pub anchor: Real,
    pub anchor_drift: Real,
    /// How far the sum may drift in a block.
    pub block_limit: Real,
    /// How far the sum may drift from the anchor.
    pub anchor_limit: Real,
}

/// Why the sums are not accepted.
pub open spec fn conservation_problem(sums: ReputationSums) -> Option<Error> {
    if sums.block_limit.less(sums.block_drift) {
        Some(
            Error::ConsensusConservationViolation {
                pre_sum: sums.pre_sum,
                post_sum: sums.post_sum,
                drift: sums.block_drift,
            },
        )
    } else if sums.anchor_limit.less(sums.anchor_drift) {
        Some(
            Error::ReputationAnchorViolation {
                total: sums.post_sum,
                anchor: sums.anchor,
                drift: sums.anchor_drift,
            },
        )
    } else {
        None
    }
}

/// Rejects reckonings that make or destroy reputation.
pub fn verify_reputation_conservation(sums: &ReputationSums) -> (r: Result<(), Error>)
    ensures
        match r {
            Ok(()) => conservation_problem(*sums) is None,
            Err(e) => conservation_problem(*sums) == Some(e),
        },
{
    if sums.block_limit.is_less(sums.block_drift) {
        return Err(
            Error::ConsensusConservationViolation {
                pre_sum: sums.pre_sum,
                post_sum: sums.post_sum,
                drift: sums.block_drift,
            },
        );
    }
    if sums.anchor_limit.is_less(sums.anchor_drift) {
        return Err(
            Error::ReputationAnchorViolation {
                total: sums.post_sum,
                anchor: sums.anchor,
                drift: sums.anchor_drift,
            },
        );
    }
    Ok(())
}

/// The outcome of a decision that nobody voted on.
pub open spec fn default_outcome(decision_id: DecisionId, period_id: VotingPeriodId)
    -> DecisionOutcome {
    DecisionOutcome {
        decision_id,
        period_id,
        outcome_value: half(),
        min: zero(),
        max: full(),
        confidence: zero(),
        total_votes: 0,
        total_reputation_weight: zero(),
        is_consensus: true,
        was_voted_on: false,
        categorical_winner: None,
    }
}

/// The outcome of a decision as reckoned; one half where all abstained.
pub open spec fn reckoned_outcome(
    decision_id: DecisionId,
    period_id: VotingPeriodId,
    value: Option<Real>,
    total_votes: u64,
    total_weight: Real,
    winner: Option<Option<u16>>,
) -> DecisionOutcome {
    DecisionOutcome {
        decision_id,
        period_id,
        outcome_value: match value {
            Some(v) => v,
            None => half(),
        },
        min: zero(),
        max: full(),
        confidence: full(),
        total_votes,
        total_reputation_weight: total_weight,
        is_consensus: true,
        was_voted_on: true,
        categorical_winner: winner,
    }
}

fn make_default_outcome(decision_id: DecisionId, period_id: VotingPeriodId) -> (r: DecisionOutcome)
    ensures
        r == default_outcome(decision_id, period_id),
{
    DecisionOutcome {
        decision_id,
        period_id,
        outcome_value: Real { bits: 0x3fe0_0000_0000_0000 },
        min: Real { bits: 0 },
        max: Real { bits: 0x3ff0_0000_0000_0000 },
        confidence: Real { bits: 0 },
        total_votes: 0,
        total_reputation_weight: Real { bits: 0 },
        is_consensus: true,
        was_voted_on: false,
        categorical_winner: None,
    }
}

/// What the outcomes say of the decisions.
pub open spec fn resolutions(outcomes: Seq<DecisionOutcome>) -> Seq<DecisionResolutionEntry> {
    outcomes.map_values(
        |o: DecisionOutcome|
            DecisionResolutionEntry { decision_id: o.decision_id, outcome_value: o.outcome_value },
    )
}

fn list_resolutions(outcomes: &Vec<DecisionOutcome>) -> (r: Vec<DecisionResolutionEntry>)
    ensures
        r@ == resolutions(outcomes@),
{
    let mut r: Vec<DecisionResolutionEntry> = Vec::new();
    let mut i: usize = 0;
    while i < outcomes.len()
        invariant
            i <= outcomes@.len(),
            r@.len() == i,
            forall|j: int|
                0 <= j < i ==> #[trigger] r@[j] == (DecisionResolutionEntry {
                    decision_id: outcomes@[j].decision_id,
                    outcome_value: outcomes@[j].outcome_value,
                }),
        decreases outcomes@.len() - i,
    {
        r.push(
            DecisionResolutionEntry {
                decision_id: outcomes[i].decision_id,
                outcome_value: outcomes[i].outcome_value,
            },
        );
        i += 1;
    }
    assert(r@ =~= resolutions(outcomes@));
    r
}

/// A list of ids with one added at its place.
pub open spec fn insert_id(list: Seq<DecisionId>, id: DecisionId) -> Seq<DecisionId>
    decreases list.len(),
{
    if list.len() == 0 {
        seq![id]
    } else if !bytes_before(id.0@, list.last().0@) {
        list.push(id)
    } else {
        insert_id(list.drop_last(), id).push(list.last())
    }
}

/// A list of ids in their order.
pub open spec fn sorted_ids(ids: Seq<DecisionId>) -> Seq<DecisionId>
    decreases ids.len(),
{
    if ids.len() == 0 {
        Seq::empty()
    } else {
        insert_id(sorted_ids(ids.drop_last()), ids.last())
    }
}

fn insert_in_order(list: &mut Vec<DecisionId>, id: DecisionId)
    ensures
        final(list)@ == insert_id(old(list)@, id),
{
    let ghost start = list@;
    let mut at: usize = list.len();
    proof {
        assert(start.subrange(0, at as int) =~= start);
        assert(insert_id(start, id) + start.subrange(at as int, start.len() as int) =~= insert_id(
            start,
            id,
        ));
    }
    while at > 0 && is_before(id.0.as_slice(), list[at - 1].0.as_slice())
        invariant
            at <= list@.len(),
            list@ == start,
            start == old(list)@,
            insert_id(start, id) == insert_id(start.subrange(0, at as int), id) + start.subrange(
                at as int,
                start.len() as int,
            ),
        decreases at,
    {
        proof {
            let head = start.subrange(0, at as int);
            assert(head.drop_last() =~= start.subrange(0, at - 1));
            let tail = start.subrange(at as int, start.len() as int);
            let next = start.subrange(at - 1, start.len() as int);
            assert(insert_id(head.drop_last(), id).push(head.last()) + tail =~= insert_id(
                head.drop_last(),
                id,
            ) + next);
        }
        at -= 1;
    }
    proof {
        let head = start.subrange(0, at as int);
        assert(insert_id(head, id) =~= head.push(id));
        assert(start.insert(at as int, id) =~= head.push(id) + start.subrange(
            at as int,
            start.len() as int,
        ));
    }
    list.insert(at, id);
}

fn sort_ids(ids: &Vec<DecisionId>) -> (r: Vec<DecisionId>)
    ensures
        r@ == sorted_ids(ids@),
{
    let mut r: Vec<DecisionId> = Vec::new();
    let mut i: usize = 0;
    assert(ids@.subrange(0, 0) =~= Seq::empty());
    while i < ids.len()
        invariant
            i <= ids@.len(),
            r@ == sorted_ids(ids@.subrange(0, i as int)),
        decreases ids@.len() - i,
    {
        proof {
            assert(ids@.subrange(0, i + 1).drop_last() =~= ids@.subrange(0, i as int));
        }
        insert_in_order(&mut r, ids[i]);
        i += 1;
    }
    assert(ids@.subrange(0, i as int) =~= ids@);
    r
}

/// How the votes on a decision are reckoned.
#[derive(Clone, Copy, Debug, PartialEq, Eq, Structural)]
pub enum Reckoning {
    Binary,
    Scaled,
    /// By plurality among a number of options.
    Categorical(u16),
}

/// How the votes on a decision are reckoned: by its type, and as binary where
/// nothing is known of it.
pub open spec fn reckoning_of(view: DecisionsView, id: DecisionId) -> Reckoning {
    let entries = entries_of(view, id.period());
    if entries.dom().contains(id) && entries[id][0].decision is Some {
        match entries[id][0].decision->0.decision_type {
            DecisionType::Binary => Reckoning::Binary,
            DecisionType::Scaled { .. } => Reckoning::Scaled,
            DecisionType::Category { options } => Reckoning::Categorical(
                (options@.len() % 65536) as u16,
            ),
        }
    } else {
        Reckoning::Binary
    }
}

/// A decision whose first entry says what was claimed is reckoned as its type
/// asks: a scaled one as a number on a scale, a category by plurality among its
/// options.
pub open spec fn is_reckoned_by_type(
    view: DecisionsView,
    id: DecisionId,
    reckoning: Reckoning,
) -> bool {
    let p = id.period();
    view.periods.dom().contains(p) && view.periods[p].dom().contains(id)
        && view.periods[p][id][0].decision is Some ==> match view.periods[p][id][0].decision->0.decision_type {
        DecisionType::Binary => reckoning is Binary,
        DecisionType::Scaled { .. } => reckoning is Scaled,
        DecisionType::Category { options } => {
            &&& reckoning is Categorical
            &&& options@.len() <= u16::MAX ==> reckoning->Categorical_0 == options@.len()
        },
    }
}

/// A vote with a value.
pub type Cast = (Address, DecisionId, Real);

/// The votes that have a value.
pub open spec fn casts(rows: Seq<(VoteMatrixKey, VoteMatrixEntry)>) -> Seq<Cast>
    decreases rows.len(),
{
    if rows.len() == 0 {
        Seq::empty()
    } else {
        let before = casts(rows.drop_last());
        match rows.last().1.value {
            Some(v) => before.push((rows.last().0.voter_address, rows.last().0.decision_id, v)),
            None => before,
        }
    }
}

/// What the votes of a period are reckoned from.
pub struct ReckoningInput {
    /// Those with a reputation, in the order of addresses.
    pub voters: Vec<(Address, Real)>,
    /// The decisions, in their order, and how they are reckoned.
    pub decisions: Vec<(DecisionId, Reckoning)>,
    pub votes: Vec<Cast>,
    /// How many votes there are, those that abstain too.
    pub vote_count: usize,
}

/// What is to be done with the votes of a period.
pub enum ConsensusPlan {
    /// Nothing: they have been reckoned, or nobody has a reputation.
    Skip,
    /// There are no votes, and this comes of it.
    Settled(ConsensusResult),
    /// They are to be reckoned.
    Reckon(ReckoningInput),
}

/// The result where there are no votes.
pub open spec fn is_default_result(
    result: ConsensusResult,
    period: VotingPeriod,
    timestamp: u64,
    block_height: u32,
) -> bool {
    &&& result.period_id == period.id
    &&& result.block_height == block_height
    &&& result.timestamp == timestamp
    &&& result.total_decisions == period.decision_ids@.len()
    &&& result.decision_outcomes@ == period.decision_ids@.map_values(
        |id: DecisionId| default_outcome(id, period.id),
    )
    &&& result.decision_resolutions@ == resolutions(result.decision_outcomes@)
    &&& result.updated_reputations@.len() == 0
    &&& result.period_stats.period_id == period.id
    &&& result.period_stats.timestamp == 0
    &&& result.period_stats.total_voters == 0
    &&& result.period_stats.total_votes == 0
    &&& result.period_stats.total_decisions == 0
    &&& result.period_stats.consensus_decisions == 0
    &&& result.period_stats.avg_participation_rate == zero()
    &&& result.period_stats.total_reputation_weight == zero()
    &&& result.period_stats.first_loading is None
    &&& result.period_stats.certainty == Some(zero())
    &&& result.period_stats.reputation_changes is None
}

/// What is to be done with the votes of a period: `votes` and `outcomes` are the
/// rows that are stored, and `reputation` what voters have.
pub open spec fn is_plan(
    plan: ConsensusPlan,
    votes: Seq<(VoteMatrixKey, VoteMatrixEntry)>,
    outcomes: Seq<(DecisionId, DecisionOutcome)>,
    reputation: Reputations,
    decisions: DecisionsView,
    period: VotingPeriod,
    total_weight: Real,
    timestamp: u64,
    height: u32,
) -> bool {
    let votes = votes_for(votes, period.id);
    let weights = positives(reputation);
    if outcomes_for(outcomes, period.id).len() > 0 {
        plan is Skip
    } else if votes.len() == 0 {
        plan is Settled && is_default_result(plan->Settled_0, period, timestamp, height)
    } else if weights == Map::<Address, Real>::empty() || not_above_zero(total_weight) {
        plan is Skip
    } else {
        &&& plan is Reckon
        &&& plan->Reckon_0.vote_count == votes.len()
        &&& plan->Reckon_0.votes@ == casts(votes)
        &&& plan->Reckon_0.decisions@ == sorted_ids(period.decision_ids@).map_values(
            |id: DecisionId| (id, reckoning_of(decisions, id)),
        )
        &&& ascending(plan->Reckon_0.voters@)
        &&& rows_map(plan->Reckon_0.voters@) == weights
    }
}

/// Decides what is to be done with the votes of a period. `total_weight` is
/// the sum of the reputations above zero.
pub fn plan_consensus(
    voting: &VotingDatabases,
    reputation: &ReputationDbs,
    decisions: &Dbs,
    period: &VotingPeriod,
    total_weight: Real,
    current_timestamp: u64,
    current_height: u32,
) -> (r: ConsensusPlan)
    ensures
        is_plan(
            r,
            voting.votes.rows(),
            voting.decision_outcomes.rows(),
            reputation@,
            decisions@,
            *period,
            total_weight,
            current_timestamp,
            current_height,
        ),
        r is Reckon ==> forall|k: int|
            #![trigger r->Reckon_0.decisions@[k]]
            0 <= k < r->Reckon_0.decisions@.len() ==> is_reckoned_by_type(
                decisions@,
                r->Reckon_0.decisions@[k].0,
                r->Reckon_0.decisions@[k].1,
            ),
{
    let existing = voting.get_outcomes_for_period(period.id);
    if existing.len() > 0 {
        return ConsensusPlan::Skip;
    }
    let all_votes = voting.get_votes_for_period(period.id);
    if all_votes.len() == 0 {
        return ConsensusPlan::Settled(
            default_result(period, current_timestamp, current_height),
        );
    }
    let weights = reputation.get_all_reputations();
    let none_above = !total_weight.is_nan() && !(Real { bits: 0 }).is_less(total_weight);
    if weights.is_empty() || none_above {
        return ConsensusPlan::Skip;
    }
    weights.rows_facts();
    let mut voters: Vec<(Address, Real)> = Vec::new();
    let mut i: usize = 0;
    while i < weights.len()
        invariant
            i <= weights.rows().len(),
            voters@ == weights.rows().subrange(0, i as int),
        decreases weights.rows().len() - i,
    {
        voters.push(*weights.row(i));
        i += 1;
        assert(voters@ =~= weights.rows().subrange(0, i as int));
    }
    assert(voters@ =~= weights.rows());
    let ids = sort_ids(&period.decision_ids);
    let mut reckonings: Vec<(DecisionId, Reckoning)> = Vec::new();
    let mut k: usize = 0;
    while k < ids.len()
        invariant
            k <= ids@.len(),
            reckonings@.len() == k,
            forall|j: int|
                0 <= j < k ==> #[trigger] reckonings@[j] == (
                    ids@[j],
                    reckoning_of(decisions@, ids@[j]),
                ),
        decreases ids@.len() - k,
    {
        let id = ids[k];
        let reckoning = match decisions.get_decision_entry(id) {
            None => Reckoning::Binary,
            Some(entry) => match &entry.decision {
                None => Reckoning::Binary,
                Some(decision) => match &decision.decision_type {
                    DecisionType::Binary => Reckoning::Binary,
                    DecisionType::Scaled { .. } => Reckoning::Scaled,
                    DecisionType::Category { options } => Reckoning::Categorical(
                        (options.len() % 65536) as u16,
                    ),
                },
            },
        };
        reckonings.push((id, reckoning));
        k += 1;
    }
    assert(reckonings@ =~= ids@.map_values(|id: DecisionId| (id, reckoning_of(decisions@, id))));
    let mut votes: Vec<Cast> = Vec::new();
    let mut n: usize = 0;
    assert(all_votes@.subrange(0, 0) =~= Seq::empty());
    while n < all_votes.len()
        invariant
            n <= all_votes@.len(),
            votes@ == casts(all_votes@.subrange(0, n as int)),
        decreases all_votes@.len() - n,
    {
        proof {
            assert(all_votes@.subrange(0, n + 1).drop_last() =~= all_votes@.subrange(0, n as int));
        }
        match all_votes[n].1.value {
            Some(v) => {
                votes.push((all_votes[n].0.voter_address, all_votes[n].0.decision_id, v));
            },
            None => {},
        }
        n += 1;
    }
    assert(all_votes@.subrange(0, n as int) =~= all_votes@);
    ConsensusPlan::Reckon(
        ReckoningInput { voters, decisions: reckonings, votes, vote_count: all_votes.len() },
    )
}

fn default_result(period: &VotingPeriod, timestamp: u64, block_height: u32) -> (r: ConsensusResult)
    ensures
        is_default_result(r, *period, timestamp, block_height),
{
    let mut outcomes: Vec<DecisionOutcome> = Vec::new();
    let mut i: usize = 0;
    while i < period.decision_ids.len()
        invariant
            i <= period.decision_ids@.len(),
            outcomes@.len() == i,
            forall|j: int|
                0 <= j < i ==> #[trigger] outcomes@[j] == default_outcome(
                    period.decision_ids@[j],
                    period.id,
                ),
        decreases period.decision_ids@.len() - i,
    {
        outcomes.push(make_default_outcome(period.decision_ids[i], period.id));
        i += 1;
    }
    assert(outcomes@ =~= period.decision_ids@.map_values(
        |id: DecisionId| default_outcome(id, period.id),
    ));
    let resolved = list_resolutions(&outcomes);
    let mut period_stats = VotingPeriodStats::new(period.id, 0);
    period_stats.certainty = Some(Real { bits: 0 });
    ConsensusResult {
        period_id: period.id,
        block_height,
        timestamp,
        total_decisions: period.decision_ids.len(),
        period_stats,
        decision_outcomes: outcomes,
        decision_resolutions: resolved,
        updated_reputations: Vec::new(),
    }
}

/// What reckoning the votes gave.
pub struct Reckoned {
    /// The outcome of each decision; none where all abstained.
    pub outcomes: Vec<(DecisionId, Option<Real>)>,
    pub first_loading: Vec<Real>,
    pub certainty: Real,
    pub updated_reputations: Vec<(Address, Real)>,
    /// For each category the option that won, if one did.
    pub categorical_winners: Table<DecisionId, Option<u16>>,
}

/// The option that won a category.
pub open spec fn winner_of(
    winners: Map<DecisionId, Option<u16>>,
    id: DecisionId,
) -> Option<Option<u16>> {
    if winners.dom().contains(id) {
        Some(winners[id])
    } else {
        None
    }
}

/// The outcomes of the decisions that were reckoned.
pub open spec fn reckoned_outcomes(
    reckoned: Reckoned,
    period_id: VotingPeriodId,
    vote_count: u64,
    total_weight: Real,
) -> Seq<DecisionOutcome> {
    reckoned.outcomes@.map_values(
        |o: (DecisionId, Option<Real>)|
            reckoned_outcome(
                o.0,
                period_id,
                o.1,
                vote_count,
                total_weight,
                winner_of(reckoned.categorical_winners@, o.0),
            ),
    )
}

/// The default outcomes of the decisions that were not reckoned.
pub open spec fn missing_outcomes(
    ids: Seq<DecisionId>,
    reckoned: Seq<(DecisionId, Option<Real>)>,
    period_id: VotingPeriodId,
) -> Seq<DecisionOutcome>
    decreases ids.len(),
{
    if ids.len() == 0 {
        Seq::empty()
    } else {
        let before = missing_outcomes(ids.drop_last(), reckoned, period_id);
        if has_key(reckoned, ids.last()) {
            before
        } else {
            before.push(default_outcome(ids.last(), period_id))
        }
    }
}

/// The reputation of each voter before and after.
pub open spec fn score_changes(
    pre: Reputations,
    updates: Seq<(Address, Real)>,
) -> Seq<(Address, Real, Real)> {
    updates.map_values(
        |u: (Address, Real)| (u.0, reputation_of(pre, u.0), u.1),
    )
}

/// Two statistics agree on all but what reckoning the votes gives.
pub open spec fn same_counts(a: VotingPeriodStats, b: VotingPeriodStats) -> bool {
    &&& a.period_id == b.period_id
    &&& a.timestamp == b.timestamp
    &&& a.total_voters == b.total_voters
    &&& a.total_votes == b.total_votes
    &&& a.total_decisions == b.total_decisions
    &&& a.avg_participation_rate == b.avg_participation_rate
    &&& a.total_reputation_weight == b.total_reputation_weight
    &&& a.consensus_decisions == b.consensus_decisions
}

fn was_reckoned(reckoned: &Vec<(DecisionId, Option<Real>)>, id: DecisionId) -> (r: bool)
    ensures
        r == has_key(reckoned@, id),
{
    let mut i: usize = 0;
    while i < reckoned.len()
        invariant
            i <= reckoned@.len(),
            forall|j: int| 0 <= j < i ==> (#[trigger] reckoned@[j]).0 != id,
        decreases reckoned@.len() - i,
    {
        if reckoned[i].0 == id {
            assert(row_has_key(reckoned@, id, i as int));
            return true;
        }
        i += 1;
    }
    proof {
        if has_key(reckoned@, id) {
            let j = choose|j: int| row_has_key(reckoned@, id, j);
            assert(reckoned@[j].0 == id);
        }
    }
    false
}

/// The result of what reckoning the votes of a period gave. `stats` are the
/// statistics that are stored, and `reputation` is what voters had.
pub open spec fn is_finished(
    r: ConsensusResult,
    stats: Map<VotingPeriodId, VotingPeriodStats>,
    reputation: Reputations,
    period: VotingPeriod,
    vote_count: u64,
    total_weight: Real,
    reckoned: Reckoned,
    timestamp: u64,
    height: u32,
) -> bool {
    &&& r.period_id == period.id
    &&& r.block_height == height
    &&& r.timestamp == timestamp
    &&& r.total_decisions == period.decision_ids@.len()
    &&& r.decision_outcomes@ == reckoned_outcomes(reckoned, period.id, vote_count, total_weight)
        + missing_outcomes(period.decision_ids@, reckoned.outcomes@, period.id)
    &&& r.decision_resolutions@ == resolutions(r.decision_outcomes@)
    &&& r.updated_reputations == reckoned.updated_reputations
    &&& r.period_stats.first_loading is Some
    &&& r.period_stats.first_loading->0@ == reckoned.first_loading@
    &&& r.period_stats.certainty == Some(reckoned.certainty)
    &&& reckoned.updated_reputations@.len() > 0 ==> {
        &&& r.period_stats.reputation_changes is Some
        &&& r.period_stats.reputation_changes->0@ == score_changes(
            positives(reputation),
            reckoned.updated_reputations@,
        )
    }
    &&& stats.dom().contains(period.id) ==> {
        let before = stats[period.id];
        let after = r.period_stats;
        &&& same_counts(after, before)
        &&& reckoned.updated_reputations@.len() == 0 ==> match before.reputation_changes {
            Some(list) => after.reputation_changes == Some(list),
            None => after.reputation_changes is None,
        }
    }
    &&& !stats.dom().contains(period.id) ==> {
        let after = r.period_stats;
        &&& exists|blank: VotingPeriodStats| #[trigger]
            blank.is_blank(period.id, 0) && same_counts(after, blank)
        &&& reckoned.updated_reputations@.len() == 0 ==> after.reputation_changes is None
    }
}

/// Makes the result of what reckoning the votes gave: an outcome for each
/// decision, with a default for those that were not reckoned.
pub fn finish_consensus(
    voting: &VotingDatabases,
    reputation: &ReputationDbs,
    period: &VotingPeriod,
    vote_count: u64,
    total_weight: Real,
    reckoned: Reckoned,
    current_timestamp: u64,
    current_height: u32,
) -> (r: ConsensusResult)
    ensures
        is_finished(
            r,
            voting@.stats,
            reputation@,
            *period,
            vote_count,
            total_weight,
            reckoned,
            current_timestamp,
            current_height,
        ),
{
    let mut outcomes: Vec<DecisionOutcome> = Vec::new();
    let mut i: usize = 0;
    let ghost expected = reckoned_outcomes(reckoned, period.id, vote_count, total_weight);
    while i < reckoned.outcomes.len()
        invariant
            i <= reckoned.outcomes@.len(),
            expected == reckoned_outcomes(reckoned, period.id, vote_count, total_weight),
            outcomes@ == expected.subrange(0, i as int),
        decreases reckoned.outcomes@.len() - i,
    {
        let (id, value) = reckoned.outcomes[i];
        let winner = match reckoned.categorical_winners.get(&id) {
            Some(w) => Some(*w),
            None => None,
        };
        let outcome_value = match value {
            Some(v) => v,
            None => Real { bits: 0x3fe0_0000_0000_0000 },
        };
        outcomes.push(
            DecisionOutcome {
                decision_id: id,
                period_id: period.id,
                outcome_value,
                min: Real { bits: 0 },
                max: Real { bits: 0x3ff0_0000_0000_0000 },
                confidence: Real { bits: 0x3ff0_0000_0000_0000 },
                total_votes: vote_count,
                total_reputation_weight: total_weight,
                is_consensus: true,
                was_voted_on: true,
                categorical_winner: winner,
            },
        );
        i += 1;
        assert(outcomes@ =~= expected.subrange(0, i as int));
    }
    assert(outcomes@ =~= expected);
    let ghost ids = period.decision_ids@;
    let mut k: usize = 0;
    proof {
        assert(ids.subrange(0, 0) =~= Seq::empty());
        assert(outcomes@ =~= expected + missing_outcomes(
            ids.subrange(0, 0),
            reckoned.outcomes@,
            period.id,
        ));
    }
    while k < period.decision_ids.len()
        invariant
            k <= ids.len(),
            ids == period.decision_ids@,
            outcomes@ == expected + missing_outcomes(
                ids.subrange(0, k as int),
                reckoned.outcomes@,
                period.id,
            ),
        decreases ids.len() - k,
    {
        proof {
            assert(ids.subrange(0, k + 1).drop_last() =~= ids.subrange(0, k as int));
        }
        let id = period.decision_ids[k];
        if !was_reckoned(&reckoned.outcomes, id) {
            outcomes.push(make_default_outcome(id, period.id));
        }
        k += 1;
        assert(outcomes@ =~= expected + missing_outcomes(
            ids.subrange(0, k as int),
            reckoned.outcomes@,
            period.id,
        ));
    }
    assert(ids.subrange(0, k as int) =~= ids);
    let resolved = list_resolutions(&outcomes);
    let weights = reputation.get_all_reputations();
    let updates = &reckoned.updated_reputations;
    let mut changes: Vec<(Address, Real, Real)> = Vec::new();
    let mut n: usize = 0;
    while n < updates.len()
        invariant
            n <= updates@.len(),
            weights@ == positives(reputation@),
            changes@.len() == n,
            forall|j: int|
                0 <= j < n ==> #[trigger] changes@[j] == (
                    updates@[j].0,
                    reputation_of(weights@, updates@[j].0),
                    updates@[j].1,
                ),
        decreases updates@.len() - n,
    {
        let old_rep = match weights.get(&updates[n].0) {
            Some(rep) => *rep,
            None => Real { bits: 0 },
        };
        changes.push((updates[n].0, old_rep, updates[n].1));
        n += 1;
    }
    assert(changes@ =~= score_changes(positives(reputation@), updates@));
    let mut period_stats = match voting.get_period_stats(period.id) {
        Some(stats) => VotingPeriodStats {
            period_id: stats.period_id,
            timestamp: stats.timestamp,
            total_voters: stats.total_voters,
            total_votes: stats.total_votes,
            total_decisions: stats.total_decisions,
            avg_participation_rate: stats.avg_participation_rate,
            total_reputation_weight: stats.total_reputation_weight,
            consensus_decisions: stats.consensus_decisions,
            first_loading: None,
            certainty: None,
            reputation_changes: match &stats.reputation_changes {
                Some(list) => Some(boxed_copy(list)),
                None => None,
            },
        },
        None => VotingPeriodStats::new(period.id, 0),
    };
    let ghost start = period_stats;
    proof {
        if !voting@.stats.dom().contains(period.id) {
            assert(start.is_blank(period.id, 0));
        }
    }
    period_stats.certainty = Some(reckoned.certainty);
    if changes.len() > 0 {
        period_stats.reputation_changes = Some(boxed(changes));
    }
    period_stats.first_loading = Some(boxed(reckoned.first_loading));
    ConsensusResult {
        period_id: period.id,
        block_height: current_height,
        timestamp: current_timestamp,
        total_decisions: period.decision_ids.len(),
        period_stats,
        decision_outcomes: outcomes,
        decision_resolutions: resolved,
        updated_reputations: reckoned.updated_reputations,
    }
}

/// What is needed to undo the reckoning of a period.
pub struct ConsensusUndoEntry {
    pub period_id: VotingPeriodId,
    pub decision_outcome_ids: Vec<DecisionId>,
    pub had_period_stats: bool,
    pub resolved_decision_ids: Vec<DecisionId>,
    pub pre_consensus_reputation: Table<Address, Real>,
}

/// The outcomes are stored.
pub open spec fn with_outcomes(
    outcomes: Map<DecisionId, DecisionOutcome>,
    list: Seq<DecisionOutcome>,
) -> Map<DecisionId, DecisionOutcome>
    decreases list.len(),
{
    if list.len() == 0 {
        outcomes
    } else {
        with_outcomes(outcomes, list.drop_last()).insert(list.last().decision_id, list.last())
    }
}

/// A decision is resolved.
pub open spec fn resolved_one(
    view: DecisionsView,
    entry: DecisionResolutionEntry,
    block_height: u32,
) -> Result<DecisionsView, Error> {
    let id = entry.decision_id;
    if !view.histories.dom().contains(id) {
        Err(Error::InvalidDecisionId { reason: Reason::NoStateHistory(id) })
    } else if !current_of(view.histories[id]).may_become(DecisionState::Resolved) {
        Err(
            Error::InvalidDecisionState {
                reason: Reason::CannotResolve(current_of(view.histories[id])),
            },
        )
    } else if entry.outcome_value.less(minus_one()) {
        Err(Error::InvalidDecisionState { reason: Reason::InvalidOutcome(entry.outcome_value) })
    } else {
        Ok(
            DecisionsView {
                histories: view.histories.insert(
                    id,
                    view.histories[id].push(
                        (DecisionState::Resolved, block_height, Some(entry.outcome_value)),
                    ),
                ),
                ..view
            },
        )
    }
}

/// Decisions are resolved, one after the other.
pub open spec fn resolved_all(
    view: DecisionsView,
    list: Seq<DecisionResolutionEntry>,
    block_height: u32,
) -> Result<DecisionsView, Error>
    decreases list.len(),
{
    if list.len() == 0 {
        Ok(view)
    } else {
        match resolved_all(view, list.drop_last(), block_height) {
            Err(e) => Err(e),
            Ok(mid) => resolved_one(mid, list.last(), block_height),
        }
    }
}

proof fn lemma_resolved_prefix(
    view: DecisionsView,
    list: Seq<DecisionResolutionEntry>,
    block_height: u32,
    n: int,
)
    requires
        0 <= n <= list.len(),
        resolved_all(view, list.subrange(0, n), block_height) is Err,
    ensures
        resolved_all(view, list, block_height) == resolved_all(
            view,
            list.subrange(0, n),
            block_height,
        ),
    decreases list.len() - n,
{
    if n == list.len() {
        assert(list.subrange(0, n) =~= list);
    } else {
        assert(list.subrange(0, n + 1).drop_last() =~= list.subrange(0, n));
        lemma_resolved_prefix(view, list, block_height, n + 1);
    }
}

/// The first decision of a list, from a place on, without a history.
pub open spec fn first_without_history(
    view: DecisionsView,
    list: Seq<DecisionResolutionEntry>,
    i: int,
) -> Option<DecisionId>
    decreases list.len() - i,
{
    if i >= list.len() {
        None
    } else if !view.histories.dom().contains(list[i].decision_id) {
        Some(list[i].decision_id)
    } else {
        first_without_history(view, list, i + 1)
    }
}

proof fn lemma_first_without(view: DecisionsView, list: Seq<DecisionResolutionEntry>, i: int)
    requires
        0 <= i,
        first_without_history(view, list, i) is None,
    ensures
        forall|j: int|
            i <= j < list.len() ==> view.histories.dom().contains(
                (#[trigger] list[j]).decision_id,
            ),
    decreases list.len() - i,
{
    if i < list.len() {
        lemma_first_without(view, list, i + 1);
    }
}

/// All decisions of a list have a history.
pub open spec fn all_have_history(view: DecisionsView, list: Seq<DecisionResolutionEntry>) -> bool {
    forall|i: int|
        0 <= i < list.len() ==> view.histories.dom().contains((#[trigger] list[i]).decision_id)
}

/// The reputations after the reckoning, with the greatest one anchored anew; of
/// several that are as great, the last by address.
pub open spec fn with_anchor(post: Reputations, anchored: Option<Real>) -> Reputations {
    match (largest_in(rows_of(post)), anchored) {
        (Some(address), Some(rep)) => post.insert(address, rep),
        _ => post,
    }
}

/// Checks that every decision that is to be resolved has a history.
pub fn validate_consensus_commit(
    decisions: &Dbs,
    resolutions: &Vec<DecisionResolutionEntry>,
) -> (r: Result<(), Error>)
    ensures
        r == match first_without_history(decisions@, resolutions@, 0) {
            None => Ok::<(), Error>(()),
            Some(id) => Err(Error::InvalidDecisionId { reason: Reason::NothingToResolve(id) }),
        },
        r is Ok ==> all_have_history(decisions@, resolutions@),
{
    let mut i: usize = 0;
    while i < resolutions.len()
        invariant
            i <= resolutions@.len(),
            first_without_history(decisions@, resolutions@, 0) == first_without_history(
                decisions@,
                resolutions@,
                i as int,
            ),
        decreases resolutions@.len() - i,
    {
        if decisions.get_decision_state_history(resolutions[i].decision_id).is_none() {
            return Err(
                Error::InvalidDecisionId {
                    reason: Reason::NothingToResolve(resolutions[i].decision_id),
                },
            );
        }
        i += 1;
    }
    proof {
        lemma_first_without(decisions@, resolutions@, 0);
    }
    Ok(())
}

/// What is changed when the votes of a period have been reckoned.
pub struct Tally {
    pub voting: VotingView,
    pub reputation: Reputations,
    pub decisions: DecisionsView,
}

/// What comes of the votes of a period is stored: `before` becomes `after`, and
/// the result tells how to undo that, or why it cannot be done.
pub open spec fn is_committed(
    before: Tally,
    after: Tally,
    result: ConsensusResult,
    sums: ReputationSums,
    anchored: Option<Real>,
    r: Result<ConsensusUndoEntry, Error>,
) -> bool {
    let pre = positives(before.reputation);
    let next = resolved_all(
        before.decisions,
        result.decision_resolutions@,
        result.block_height,
    );
    let absent = first_without_history(before.decisions, result.decision_resolutions@, 0);
    if absent is Some {
        r is Err && r->Err_0 == (Error::InvalidDecisionId {
            reason: Reason::NothingToResolve(absent->0),
        })
    } else if conservation_problem(sums) is Some {
        r is Err && r->Err_0 == conservation_problem(sums)->0
    } else if next is Err {
        r is Err && r->Err_0 == next->Err_0
    } else {
        &&& r is Ok
        &&& after.decisions == next->Ok_0
        &&& after.voting == (VotingView {
            stats: before.voting.stats.insert(
                result.period_stats.period_id,
                result.period_stats,
            ),
            outcomes: with_outcomes(before.voting.outcomes, result.decision_outcomes@),
            ..before.voting
        })
        &&& after.reputation == positives(
            with_anchor(updated(pre, result.updated_reputations@), anchored),
        )
        &&& r->Ok_0.period_id == result.period_id
        &&& r->Ok_0.had_period_stats == before.voting.stats.dom().contains(result.period_id)
        &&& r->Ok_0.pre_consensus_reputation@ == pre
        &&& r->Ok_0.decision_outcome_ids@ == result.decision_outcomes@.map_values(
            |o: DecisionOutcome| o.decision_id,
        )
        &&& r->Ok_0.resolved_decision_ids@ == result.decision_resolutions@.map_values(
            |o: DecisionResolutionEntry| o.decision_id,
        )
    }
}

/// Stores what comes of the votes of a period. `sums` are those of the
/// reputations before and after, and `anchored` is the reputation of the
/// [`largest_voter`] with what is missing from the total.
pub fn commit_consensus_result(
    voting: &mut VotingDatabases,
    reputation: &mut ReputationDbs,
    decisions: &mut Dbs,
    result: ConsensusResult,
    sums: &ReputationSums,
    anchored: Option<Real>,
) -> (r: Result<ConsensusUndoEntry, Error>)
    ensures
        is_committed(
            Tally {
                voting: old(voting)@,
                reputation: old(reputation)@,
                decisions: old(decisions)@,
            },
            Tally {
                voting: final(voting)@,
                reputation: final(reputation)@,
                decisions: final(decisions)@,
            },
            result,
            *sums,
            anchored,
            r,
        ),
{
    match validate_consensus_commit(decisions, &result.decision_resolutions) {
        Ok(()) => {},
        Err(e) => return Err(e),
    }
    let had_period_stats = voting.has_consensus(result.period_id);
    let pre = reputation.get_all_reputations();
    let post = compute_post_consensus_reputation(&pre, &result.updated_reputations);
    match verify_reputation_conservation(sums) {
        Ok(()) => {},
        Err(e) => return Err(e),
    }
    post.rows_facts();
    let target = largest_voter(&post);
    let mut end = copy_reputations(&post);
    match (target, anchored) {
        (Some(address), Some(rep)) => {
            end.put(address, rep);
        },
        _ => {},
    }
    assert(end@ == with_anchor(post@, anchored));
    let mut decision_outcome_ids: Vec<DecisionId> = Vec::new();
    let mut resolved_decision_ids: Vec<DecisionId> = Vec::new();
    let outcomes = &result.decision_outcomes;
    let list = &result.decision_resolutions;
    let block_height: u32 = result.block_height;
    let ghost start = voting@.outcomes;
    let ghost before = voting@;
    let mut i: usize = 0;
    assert(outcomes@.subrange(0, 0) =~= Seq::empty());
    while i < outcomes.len()
        invariant
            i <= outcomes@.len(),
            before == old(voting)@,
            start == before.outcomes,
            voting@ == (VotingView {
                outcomes: with_outcomes(start, outcomes@.subrange(0, i as int)),
                ..before
            }),
            decision_outcome_ids@.len() == i,
            forall|j: int|
                0 <= j < i ==> #[trigger] decision_outcome_ids@[j] == outcomes@[j].decision_id,
        decreases outcomes@.len() - i,
    {
        proof {
            assert(outcomes@.subrange(0, i + 1).drop_last() =~= outcomes@.subrange(0, i as int));
        }
        voting.put_decision_outcome(&outcomes[i]);
        decision_outcome_ids.push(outcomes[i].decision_id);
        i += 1;
    }
    assert(outcomes@.subrange(0, i as int) =~= outcomes@);
    assert(decision_outcome_ids@ =~= outcomes@.map_values(|o: DecisionOutcome| o.decision_id));
    reputation.clear_and_restore(&end);
    let ghost histories = decisions@;
    let mut k: usize = 0;
    assert(list@.subrange(0, 0) =~= Seq::empty());
    while k < list.len()
        invariant
            k <= list@.len(),
            histories == old(decisions)@,
            all_have_history(histories, list@),
            resolved_all(histories, list@.subrange(0, k as int), block_height) == Ok::<
                DecisionsView,
                Error,
            >(decisions@),
            resolved_decision_ids@.len() == k,
            forall|j: int|
                0 <= j < k ==> #[trigger] resolved_decision_ids@[j] == list@[j].decision_id,
            list@ == result.decision_resolutions@,
            block_height == result.block_height,
            conservation_problem(*sums) is None,
            first_without_history(old(decisions)@, result.decision_resolutions@, 0) is None,
        decreases list@.len() - k,
    {
        proof {
            assert(list@.subrange(0, k + 1).drop_last() =~= list@.subrange(0, k as int));
        }
        match decisions.transition_decision_to_resolved(
            list[k].decision_id,
            block_height,
            list[k].outcome_value,
        ) {
            Ok(()) => {},
            Err(e) => {
                proof {
                    lemma_resolved_prefix(histories, list@, block_height, k + 1);
                }
                return Err(e);
            },
        }
        resolved_decision_ids.push(list[k].decision_id);
        k += 1;
    }
    assert(list@.subrange(0, k as int) =~= list@);
    assert(resolved_decision_ids@ =~= list@.map_values(|o: DecisionResolutionEntry| o.decision_id));
    let period_id = result.period_id;
    voting.put_period_stats(result.period_stats);
    Ok(
        ConsensusUndoEntry {
            period_id,
            decision_outcome_ids,
            had_period_stats,
            resolved_decision_ids,
            pre_consensus_reputation: pre,
        },
    )
}

/// Outcomes are deleted.
pub open spec fn without_outcomes(
    outcomes: Map<DecisionId, DecisionOutcome>,
    ids: Seq<DecisionId>,
) -> Map<DecisionId, DecisionOutcome>
    decreases ids.len(),
{
    if ids.len() == 0 {
        outcomes
    } else {
        without_outcomes(outcomes, ids.drop_last()).remove(ids.last())
    }
}

/// The voting databases without what a reckoning stored.
pub open spec fn reckoning_undone(
    voting: VotingView,
    ids: Seq<DecisionId>,
    had_period_stats: bool,
    period_id: VotingPeriodId,
) -> VotingView {
    VotingView {
        outcomes: without_outcomes(voting.outcomes, ids),
        stats: if had_period_stats {
            voting.stats
        } else {
            voting.stats.remove(period_id)
        },
        ..voting
    }
}

/// Undoes the reckoning of a period. The histories of the decisions are rolled
/// back by height.
pub fn revert_consensus_entry(
    voting: &mut VotingDatabases,
    reputation: &mut ReputationDbs,
    entry: &ConsensusUndoEntry,
)
    ensures
        final(voting)@ == reckoning_undone(
            old(voting)@,
            entry.decision_outcome_ids@,
            entry.had_period_stats,
            entry.period_id,
        ),
        final(reputation)@ == positives(entry.pre_consensus_reputation@),
{
    let ids = &entry.decision_outcome_ids;
    let mut i: usize = 0;
    assert(ids@.subrange(0, 0) =~= Seq::empty());
    while i < ids.len()
        invariant
            i <= ids@.len(),
            voting@ == (VotingView {
                outcomes: without_outcomes(old(voting)@.outcomes, ids@.subrange(0, i as int)),
                ..old(voting)@
            }),
        decreases ids@.len() - i,
    {
        proof {
            assert(ids@.subrange(0, i + 1).drop_last() =~= ids@.subrange(0, i as int));
        }
        let _ = voting.delete_decision_outcome(ids[i]);
        i += 1;
    }
    assert(ids@.subrange(0, i as int) =~= ids@);
    if !entry.had_period_stats {
        let _ = voting.delete_period_stats(entry.period_id);
    }
    reputation.clear_and_restore(&entry.pre_consensus_reputation);
}

proof fn lemma_outcomes_come_and_go(
    start: Map<DecisionId, DecisionOutcome>,
    list: Seq<DecisionOutcome>,
    id: DecisionId,
)
    ensures
        ({
            let ids = list.map_values(|o: DecisionOutcome| o.decision_id);
            &&& with_outcomes(start, list).dom().contains(id) <==> start.dom().contains(id)
                || ids.contains(id)
            &&& !ids.contains(id) ==> with_outcomes(start, list)[id] == start[id]
        }),
    decreases list.len(),
{
    let ids = list.map_values(|o: DecisionOutcome| o.decision_id);
    if list.len() > 0 {
        let head = list.drop_last();
        let head_ids = head.map_values(|o: DecisionOutcome| o.decision_id);
        lemma_outcomes_come_and_go(start, head, id);
        assert(ids =~= head_ids.push(list.last().decision_id));
        if head_ids.contains(id) {
            let j = choose|j: int| 0 <= j < head_ids.len() && head_ids[j] == id;
            assert(ids[j] == id);
        }
        if ids.contains(id) {
            let j = choose|j: int| 0 <= j < ids.len() && ids[j] == id;
            if j < head_ids.len() {
                assert(head_ids[j] == id);
            }
        }
        assert(ids[ids.len() - 1] == list.last().decision_id);
    }
}

proof fn lemma_without_outcomes(
    m: Map<DecisionId, DecisionOutcome>,
    ids: Seq<DecisionId>,
    id: DecisionId,
)
    ensures
        without_outcomes(m, ids).dom().contains(id) <==> m.dom().contains(id) && !ids.contains(id),
        without_outcomes(m, ids).dom().contains(id) ==> without_outcomes(m, ids)[id] == m[id],
    decreases ids.len(),
{
    if ids.len() > 0 {
        let head = ids.drop_last();
        lemma_without_outcomes(m, head, id);
        if head.contains(id) {
            let j = choose|j: int| 0 <= j < head.len() && head[j] == id;
            assert(ids[j] == id);
        }
        if ids.contains(id) {
            let j = choose|j: int| 0 <= j < ids.len() && ids[j] == id;
            if j < head.len() {
                assert(head[j] == id);
            }
        }
        assert(ids[ids.len() - 1] == ids.last());
    }
}

/// Undoing the reckoning of a period takes the voting databases back to where
/// they were, where the period had not been reckoned: none of its decisions
/// had an outcome, and it had no statistics.
pub proof fn reverting_undoes_reckoning(
    voting: VotingView,
    outcomes: Seq<DecisionOutcome>,
    stats: VotingPeriodStats,
)
    requires
        !voting.stats.dom().contains(stats.period_id),
        forall|i: int|
            0 <= i < outcomes.len() ==> !voting.outcomes.dom().contains(
                (#[trigger] outcomes[i]).decision_id,
            ),
    ensures
        reckoning_undone(
            VotingView {
                stats: voting.stats.insert(stats.period_id, stats),
                outcomes: with_outcomes(voting.outcomes, outcomes),
                ..voting
            },
            outcomes.map_values(|o: DecisionOutcome| o.decision_id),
            false,
            stats.period_id,
        ) == voting,
{
    let ids = outcomes.map_values(|o: DecisionOutcome| o.decision_id);
    let after = with_outcomes(voting.outcomes, outcomes);
    let back = without_outcomes(after, ids);
    assert forall|id: DecisionId| back.dom().contains(id) <==> voting.outcomes.dom().contains(id) by {
        lemma_outcomes_come_and_go(voting.outcomes, outcomes, id);
        lemma_without_outcomes(after, ids, id);
        if ids.contains(id) {
            let j = choose|j: int| 0 <= j < ids.len() && ids[j] == id;
            assert(outcomes[j].decision_id == id);
        }
    }
    assert forall|id: DecisionId| back.dom().contains(id) implies back[id]
        == voting.outcomes[id] by {
        lemma_outcomes_come_and_go(voting.outcomes, outcomes, id);
        lemma_without_outcomes(after, ids, id);
    }
    assert(back =~= voting.outcomes);
    assert(voting.stats.insert(stats.period_id, stats).remove(stats.period_id) =~= voting.stats);
}

/// The outcomes of a period in the order of the decisions.
pub fn resolve_period_decisions(voting: &VotingDatabases, period_id: VotingPeriodId) -> (r: Result<
    Vec<DecisionOutcome>,
    Error,
>)
    ensures
        ({
            let stored = outcomes_for(voting.decision_outcomes.rows(), period_id);
            if stored.len() == 0 {
                r is Err && r->Err_0 == Error::ConsensusNotYetCalculated(period_id)
            } else {
                r is Ok && r->Ok_0@ == stored.map_values(
                    |row: (DecisionId, DecisionOutcome)| row.1,
                )
            }
        }),
{
    let stored = voting.get_outcomes_for_period(period_id);
    if stored.len() == 0 {
        return Err(Error::ConsensusNotYetCalculated(period_id));
    }
    let mut r: Vec<DecisionOutcome> = Vec::new();
    let mut i: usize = 0;
    while i < stored.len()
        invariant
            i <= stored@.len(),
            r@.len() == i,
            forall|j: int| 0 <= j < i ==> #[trigger] r@[j] == stored@[j].1,
        decreases stored@.len() - i,
    {
        r.push(stored[i].1);
        i += 1;
    }
    assert(r@ =~= stored@.map_values(|row: (DecisionId, DecisionOutcome)| row.1));
    Ok(r)
}

/// The voters among votes, each once.
fn voters_among(votes: &Vec<(VoteMatrixKey, VoteMatrixEntry)>) -> (r: Vec<Address>)
    ensures
        r@.no_duplicates(),
        forall|a: Address| #[trigger]
            r@.contains(a) <==> exists|j: int|
                0 <= j < votes@.len() && (#[trigger] votes@[j]).0.voter_address == a,
{
    let mut r: Vec<Address> = Vec::new();
    let mut i: usize = 0;
    while i < votes.len()
        invariant
            i <= votes@.len(),
            r@.no_duplicates(),
            forall|a: Address| #[trigger]
                r@.contains(a) <==> exists|j: int|
                    0 <= j < i && (#[trigger] votes@[j]).0.voter_address == a,
        decreases votes@.len() - i,
    {
        let ghost before = r@;
        add_address(&mut r, votes[i].0.voter_address);
        proof {
            assert forall|a: Address| #[trigger] r@.contains(a) <==> exists|j: int|
                0 <= j < i + 1 && (#[trigger] votes@[j]).0.voter_address == a by {
                if before.contains(a) {
                    let j = choose|j: int|
                        0 <= j < i && (#[trigger] votes@[j]).0.voter_address == a;
                    assert(0 <= j < i + 1);
                }
                if a == votes@[i as int].0.voter_address {
                    assert(0 <= i < i + 1);
                }
            }
        }
        i += 1;
    }
    r
}

/// Who voted in a period, each once, and how many votes there are.
pub fn get_participation(voting: &VotingDatabases, period_id: VotingPeriodId) -> (r: (
    Vec<Address>,
    usize,
))
    ensures
        ({
            let votes = votes_for(voting.votes.rows(), period_id);
            &&& r.0@.no_duplicates()
            &&& forall|a: Address| #[trigger]
                r.0@.contains(a) <==> exists|j: int|
                    0 <= j < votes.len() && (#[trigger] votes[j]).0.voter_address == a
            &&& r.1 == votes.len()
        }),
{
    let votes = voting.get_votes_for_period(period_id);
    let voters = voters_among(&votes);
    (voters, votes.len())
}

} // verus!
