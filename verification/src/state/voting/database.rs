//! The votes that were cast, the outcomes, and the statistics of periods.

use vstd::prelude::*;

use crate::bytes::{be32, be32_injective, be32_order, bytes_before, bytes_before_by_start};
use crate::state::decisions::DecisionId;
use crate::state::voting::types::{
    vote_key, Ballot, BallotKey, DecisionOutcome, Vote, VoteMatrixEntry, VoteMatrixKey,
    VotingPeriodId, VotingPeriodStats,
};
use crate::table::{ascending, has_key, row_has_key, Key, Table};
use crate::types::transaction::add_address;
use crate::types::{Address, Real};

verus! {

pub struct VotingDatabases {
    pub votes: Table<VoteMatrixKey, VoteMatrixEntry>,
    pub ballots: Table<BallotKey, Ballot>,
    pub decision_outcomes: Table<DecisionId, DecisionOutcome>,
    pub period_stats: Table<VotingPeriodId, VotingPeriodStats>,
}

pub struct VotingView {
    pub votes: Map<VoteMatrixKey, VoteMatrixEntry>,
    pub ballots: Map<BallotKey, Ballot>,
    pub outcomes: Map<DecisionId, DecisionOutcome>,
    pub stats: Map<VotingPeriodId, VotingPeriodStats>,
}

impl View for VotingDatabases {
    type V = VotingView;

    open spec fn view(&self) -> VotingView {
        VotingView {
            votes: self.votes@,
            ballots: self.ballots@,
            outcomes: self.decision_outcomes@,
            stats: self.period_stats@,
        }
    }
}

/// The rows of votes for a period. The search ends at the first row of a later
/// period.
pub open spec fn votes_for(
    rows: Seq<(VoteMatrixKey, VoteMatrixEntry)>,
    period_id: VotingPeriodId,
) -> Seq<(VoteMatrixKey, VoteMatrixEntry)>
    decreases rows.len(),
{
    if rows.len() == 0 || rows[0].0.period_id.0 > period_id.0 {
        Seq::empty()
    } else if rows[0].0.period_id.0 == period_id.0 {
        seq![rows[0]] + votes_for(rows.skip(1), period_id)
    } else {
        votes_for(rows.skip(1), period_id)
    }
}

/// The rows of votes that a condition holds of.
pub open spec fn votes_where(
    rows: Seq<(VoteMatrixKey, VoteMatrixEntry)>,
    holds: spec_fn(VoteMatrixKey) -> bool,
) -> Seq<(VoteMatrixKey, VoteMatrixEntry)> {
    rows.filter(|row: (VoteMatrixKey, VoteMatrixEntry)| holds(row.0))
}

/// An outcome belongs to a period: the decision was claimed in the one before.
pub open spec fn outcome_of_period(
    row: (DecisionId, DecisionOutcome),
    period_id: VotingPeriodId,
) -> bool {
    let index = if period_id.0 > 0 {
        period_id.0 - 1
    } else {
        0
    };
    row.0.period() == index && row.1.period_id == period_id
}

pub open spec fn outcomes_for(
    rows: Seq<(DecisionId, DecisionOutcome)>,
    period_id: VotingPeriodId,
) -> Seq<(DecisionId, DecisionOutcome)> {
    rows.filter(|row: (DecisionId, DecisionOutcome)| outcome_of_period(row, period_id))
}

/// Ballots in the order of their times; those of the same time stay in order.
pub open spec fn insert_ballot(list: Seq<Ballot>, ballot: Ballot) -> Seq<Ballot>
    decreases list.len(),
{
    if list.len() == 0 {
        seq![ballot]
    } else if list.last().created_at <= ballot.created_at {
        list.push(ballot)
    } else {
        insert_ballot(list.drop_last(), ballot).push(list.last())
    }
}

/// Something that is not as it should be.
#[derive(Clone, Copy, Debug)]
pub enum ConsistencyIssue {
    /// The outcome of a decision has the wrong period.
    OutcomePeriodMismatch { decision_id: DecisionId, period_id: VotingPeriodId, expected: u32 },
    /// Nothing is wrong.
    Consistent { votes: usize, outcomes: usize },
}

/// The outcomes whose period is not the one after that of their decision.
pub open spec fn period_issues(rows: Seq<(DecisionId, DecisionOutcome)>) -> Seq<ConsistencyIssue>
    decreases rows.len(),
{
    if rows.len() == 0 {
        Seq::empty()
    } else {
        let before = period_issues(rows.drop_last());
        let outcome = rows.last().1;
        let expected = (outcome.decision_id.period() + 1) as u32;
        if outcome.period_id.0 != expected {
            before.push(
                ConsistencyIssue::OutcomePeriodMismatch {
                    decision_id: outcome.decision_id,
                    period_id: outcome.period_id,
                    expected,
                },
            )
        } else {
            before
        }
    }
}

impl VotingDatabases {
    pub fn new() -> (r: Self)
        ensures
            r@ == (VotingView {
                votes: Map::empty(),
                ballots: Map::empty(),
                outcomes: Map::empty(),
                stats: Map::empty(),
            }),
    {
        VotingDatabases {
            votes: Table::new(),
            ballots: Table::new(),
            decision_outcomes: Table::new(),
            period_stats: Table::new(),
        }
    }

    pub fn put_vote(&mut self, vote: &Vote)
        ensures
            final(self)@ == (VotingView {
                votes: old(self)@.votes.insert(
                    vote_key(vote.period_id, vote.voter_address, vote.decision_id),
                    VoteMatrixEntry {
                        value: vote.value,
                        timestamp: vote.timestamp,
                        block_height: vote.block_height,
                    },
                ),
                ..old(self)@
            }),
    {
        let key = VoteMatrixKey::new(vote.period_id, vote.voter_address, vote.decision_id);
        let entry = VoteMatrixEntry::new(vote.value, vote.timestamp, vote.block_height);
        self.votes.put(key, entry);
    }

    pub fn get_vote(
        &self,
        period_id: VotingPeriodId,
        voter_address: Address,
        decision_id: DecisionId,
    ) -> (r: Option<VoteMatrixEntry>)
        ensures
            ({
                let key = vote_key(period_id, voter_address, decision_id);
                match r {
                    Some(entry) => self@.votes.dom().contains(key) && entry == self@.votes[key],
                    None => !self@.votes.dom().contains(key),
                }
            }),
    {
        match self.votes.get(&VoteMatrixKey::new(period_id, voter_address, decision_id)) {
            Some(entry) => Some(*entry),
            None => None,
        }
    }

    pub fn get_votes_for_period(&self, period_id: VotingPeriodId) -> (r: Vec<
        (VoteMatrixKey, VoteMatrixEntry),
    >)
        ensures
            r@ == votes_for(self.votes.rows(), period_id),
    {
        let ghost rows = self.votes.rows();
        let mut r: Vec<(VoteMatrixKey, VoteMatrixEntry)> = Vec::new();
        let mut i: usize = 0;
        assert(rows.skip(0) =~= rows);
        assert(r@ + votes_for(rows, period_id) =~= votes_for(rows, period_id));
        while i < self.votes.len()
            invariant
                i <= rows.len(),
                rows == self.votes.rows(),
                votes_for(rows, period_id) == r@ + votes_for(rows.skip(i as int), period_id),
            decreases rows.len() - i,
        {
            let row = self.votes.row(i);
            proof {
                assert(rows.skip(i as int).skip(1) =~= rows.skip(i + 1));
            }
            if row.0.period_id.0 > period_id.0 {
                assert(r@ + Seq::<(VoteMatrixKey, VoteMatrixEntry)>::empty() =~= r@);
                return r;
            }
            if row.0.period_id.0 == period_id.0 {
                let ghost before = r@;
                r.push(*row);
                proof {
                    let rest = votes_for(rows.skip(i + 1), period_id);
                    assert(before + (seq![rows[i as int]] + rest) =~= r@ + rest);
                }
            }
            i += 1;
        }
        assert(r@ + Seq::<(VoteMatrixKey, VoteMatrixEntry)>::empty() =~= r@);
        r
    }

    pub fn get_votes_by_voter(&self, voter_address: Address) -> (r: Vec<
        (VoteMatrixKey, VoteMatrixEntry),
    >)
        ensures
            r@ == votes_where(
                self.votes.rows(),
                |key: VoteMatrixKey| key.voter_address == voter_address,
            ),
    {
        let ghost rows = self.votes.rows();
        let ghost holds = |row: (VoteMatrixKey, VoteMatrixEntry)|
            (|key: VoteMatrixKey| key.voter_address == voter_address)(row.0);
        let mut r: Vec<(VoteMatrixKey, VoteMatrixEntry)> = Vec::new();
        let mut i: usize = 0;
        proof {
            reveal(Seq::filter);
            assert(r@ =~= rows.subrange(0, 0).filter(holds));
        }
        while i < self.votes.len()
            invariant
                i <= rows.len(),
                rows == self.votes.rows(),
                holds == (|row: (VoteMatrixKey, VoteMatrixEntry)|
                    (|key: VoteMatrixKey| key.voter_address == voter_address)(row.0)),
                r@ == rows.subrange(0, i as int).filter(holds),
            decreases rows.len() - i,
        {
            proof {
                reveal(Seq::filter);
                assert(rows.subrange(0, i + 1).drop_last() =~= rows.subrange(0, i as int));
            }
            let row = self.votes.row(i);
            if row.0.voter_address == voter_address {
                r.push(*row);
            }
            i += 1;
        }
        assert(rows.subrange(0, i as int) =~= rows);
        r
    }

    pub fn get_votes_for_decision(&self, decision_id: DecisionId) -> (r: Vec<
        (VoteMatrixKey, VoteMatrixEntry),
    >)
        ensures
            r@ == votes_where(
                self.votes.rows(),
                |key: VoteMatrixKey| key.decision_id == decision_id,
            ),
    {
        let ghost rows = self.votes.rows();
        let ghost holds = |row: (VoteMatrixKey, VoteMatrixEntry)|
            (|key: VoteMatrixKey| key.decision_id == decision_id)(row.0);
        let mut r: Vec<(VoteMatrixKey, VoteMatrixEntry)> = Vec::new();
        let mut i: usize = 0;
        proof {
            reveal(Seq::filter);
            assert(r@ =~= rows.subrange(0, 0).filter(holds));
        }
        while i < self.votes.len()
            invariant
                i <= rows.len(),
                rows == self.votes.rows(),
                holds == (|row: (VoteMatrixKey, VoteMatrixEntry)|
                    (|key: VoteMatrixKey| key.decision_id == decision_id)(row.0)),
                r@ == rows.subrange(0, i as int).filter(holds),
            decreases rows.len() - i,
        {
            proof {
                reveal(Seq::filter);
                assert(rows.subrange(0, i + 1).drop_last() =~= rows.subrange(0, i as int));
            }
            let row = self.votes.row(i);
            if row.0.decision_id == decision_id {
                r.push(*row);
            }
            i += 1;
        }
        assert(rows.subrange(0, i as int) =~= rows);
        r
    }

    /// Says whether there was such a vote.
    pub fn delete_vote(
        &mut self,
        period_id: VotingPeriodId,
        voter_address: Address,
        decision_id: DecisionId,
    ) -> (r: bool)
        ensures
            r == old(self)@.votes.dom().contains(vote_key(period_id, voter_address, decision_id)),
            final(self)@ == (VotingView {
                votes: old(self)@.votes.remove(vote_key(period_id, voter_address, decision_id)),
                ..old(self)@
            }),
    {
        self.votes.delete(&VoteMatrixKey::new(period_id, voter_address, decision_id))
    }

    pub fn put_ballot(&mut self, ballot: Ballot, ballot_index: u32)
        ensures
            final(self)@ == (VotingView {
                ballots: old(self)@.ballots.insert(
                    BallotKey { period_id: ballot.period_id, index: ballot_index },
                    ballot,
                ),
                ..old(self)@
            }),
    {
        self.ballots.put(BallotKey { period_id: ballot.period_id, index: ballot_index }, ballot);
    }

    pub fn get_ballot(&self, period_id: VotingPeriodId, ballot_index: u32) -> (r: Option<&Ballot>)
        ensures
            ({
                let key = BallotKey { period_id, index: ballot_index };
                match r {
                    Some(ballot) => self@.ballots.dom().contains(key) && *ballot
                        == self@.ballots[key],
                    None => !self@.ballots.dom().contains(key),
                }
            }),
    {
        self.ballots.get(&(BallotKey { period_id, index: ballot_index }))
    }

    /// The ballots of a period, in the order of their times.
    pub fn get_ballots_for_period(&self, period_id: VotingPeriodId) -> (r: Vec<&Ballot>)
        ensures
            r@.map_values(|b: &Ballot| *b) == ballots_for(self.ballots.rows(), period_id),
    {
        let ghost rows = self.ballots.rows();
        let ghost plain = |b: &Ballot| *b;
        let mut r: Vec<&Ballot> = Vec::new();
        let mut i: usize = 0;
        assert(rows.subrange(0, 0) =~= Seq::empty());
        assert(r@.map_values(plain) =~= Seq::empty());
        while i < self.ballots.len()
            invariant
                i <= rows.len(),
                rows == self.ballots.rows(),
                plain == (|b: &Ballot| *b),
                r@.map_values(plain) == ballots_for(rows.subrange(0, i as int), period_id),
            decreases rows.len() - i,
        {
            proof {
                assert(rows.subrange(0, i + 1).drop_last() =~= rows.subrange(0, i as int));
            }
            let row = self.ballots.row(i);
            if row.0.period_id == period_id {
                insert_by_time(&mut r, &row.1);
            }
            i += 1;
        }
        assert(rows.subrange(0, i as int) =~= rows);
        r
    }

    pub fn put_decision_outcome(&mut self, outcome: &DecisionOutcome)
        ensures
            final(self)@ == (VotingView {
                outcomes: old(self)@.outcomes.insert(outcome.decision_id, *outcome),
                ..old(self)@
            }),
    {
        self.decision_outcomes.put(outcome.decision_id, *outcome);
    }

    pub fn get_decision_outcome(&self, decision_id: DecisionId) -> (r: Option<DecisionOutcome>)
        ensures
            match r {
                Some(outcome) => self@.outcomes.dom().contains(decision_id) && outcome
                    == self@.outcomes[decision_id],
                None => !self@.outcomes.dom().contains(decision_id),
            },
    {
        match self.decision_outcomes.get(&decision_id) {
            Some(outcome) => Some(*outcome),
            None => None,
        }
    }

    /// The outcomes of a period, in the order of the decisions.
    pub fn get_outcomes_for_period(&self, period_id: VotingPeriodId) -> (r: Vec<
        (DecisionId, DecisionOutcome),
    >)
        ensures
            r@ == outcomes_for(self.decision_outcomes.rows(), period_id),
    {
        let ghost rows = self.decision_outcomes.rows();
        let ghost holds = |row: (DecisionId, DecisionOutcome)| outcome_of_period(row, period_id);
        let target: u32 = if period_id.0 > 0 {
            period_id.0 - 1
        } else {
            0
        };
        let mut r: Vec<(DecisionId, DecisionOutcome)> = Vec::new();
        let mut i: usize = 0;
        proof {
            reveal(Seq::filter);
            assert(r@ =~= rows.subrange(0, 0).filter(holds));
        }
        while i < self.decision_outcomes.len()
            invariant
                i <= rows.len(),
                rows == self.decision_outcomes.rows(),
                target == if period_id.0 > 0 {
                    period_id.0 - 1
                } else {
                    0
                },
                holds == (|row: (DecisionId, DecisionOutcome)| outcome_of_period(row, period_id)),
                r@ == rows.subrange(0, i as int).filter(holds),
            decreases rows.len() - i,
        {
            proof {
                reveal(Seq::filter);
                assert(rows.subrange(0, i + 1).drop_last() =~= rows.subrange(0, i as int));
            }
            let row = self.decision_outcomes.row(i);
            if row.0.period_index() == target && row.1.period_id == period_id {
                r.push(*row);
            }
            i += 1;
        }
        assert(rows.subrange(0, i as int) =~= rows);
        r
    }

    pub fn put_period_stats(&mut self, stats: VotingPeriodStats)
        ensures
            final(self)@ == (VotingView {
                stats: old(self)@.stats.insert(stats.period_id, stats),
                ..old(self)@
            }),
    {
        self.period_stats.put(stats.period_id, stats);
    }

    pub fn get_period_stats(&self, period_id: VotingPeriodId) -> (r: Option<&VotingPeriodStats>)
        ensures
            match r {
                Some(stats) => self@.stats.dom().contains(period_id) && *stats
                    == self@.stats[period_id],
                None => !self@.stats.dom().contains(period_id),
            },
    {
        self.period_stats.get(&period_id)
    }

    pub fn count_total_votes(&self) -> (r: usize)
        ensures
            r == self.votes.rows().len(),
    {
        self.votes.len()
    }

    /// Those who have voted, each once.
    pub fn get_all_voters(&self) -> (r: Vec<Address>)
        ensures
            r@.no_duplicates(),
            forall|a: Address| #[trigger]
                r@.contains(a) <==> exists|key: VoteMatrixKey| #[trigger]
                    self@.votes.dom().contains(key) && key.voter_address == a,
    {
        self.votes.rows_facts();
        let ghost rows = self.votes.rows();
        let mut r: Vec<Address> = Vec::new();
        let mut i: usize = 0;
        while i < self.votes.len()
            invariant
                i <= rows.len(),
                rows == self.votes.rows(),
                r@.no_duplicates(),
                forall|a: Address| #[trigger]
                    r@.contains(a) <==> exists|j: int|
                        0 <= j < i && (#[trigger] rows[j]).0.voter_address == a,
            decreases rows.len() - i,
        {
            let ghost before = r@;
            add_address(&mut r, self.votes.row(i).0.voter_address);
            proof {
                assert forall|a: Address| #[trigger] r@.contains(a) <==> exists|j: int|
                    0 <= j < i + 1 && (#[trigger] rows[j]).0.voter_address == a by {
                    if before.contains(a) {
                        let j = choose|j: int|
                            0 <= j < i && (#[trigger] rows[j]).0.voter_address == a;
                        assert(0 <= j < i + 1);
                    }
                    if a == rows[i as int].0.voter_address {
                        assert(0 <= i < i + 1);
                    }
                }
            }
            i += 1;
        }
        proof {
            assert forall|a: Address| #[trigger] r@.contains(a) <==> exists|key: VoteMatrixKey| #[trigger]
                self@.votes.dom().contains(key) && key.voter_address == a by {
                if r@.contains(a) {
                    let j = choose|j: int| 0 <= j < i && (#[trigger] rows[j]).0.voter_address == a;
                    assert(self@.votes.dom().contains(rows[j].0));
                }
                if exists|key: VoteMatrixKey| #[trigger]
                    self@.votes.dom().contains(key) && key.voter_address == a {
                    let key = choose|key: VoteMatrixKey| #[trigger]
                        self@.votes.dom().contains(key) && key.voter_address == a;
                    assert(has_key(rows, key));
                    let j = choose|j: int| row_has_key(rows, key, j);
                    assert(rows[j].0.voter_address == a);
                }
            }
        }
        r
    }

    /// What is not as it should be, or that nothing is wrong.
    pub fn check_consistency(&self) -> (r: Vec<ConsistencyIssue>)
        ensures
            ({
                let issues = period_issues(self.decision_outcomes.rows());
                r@ == if issues.len() == 0 {
                    seq![
                        ConsistencyIssue::Consistent {
                            votes: self.votes.rows().len() as usize,
                            outcomes: self.decision_outcomes.rows().len() as usize,
                        },
                    ]
                } else {
                    issues
                }
            }),
    {
        let ghost rows = self.decision_outcomes.rows();
        let mut issues: Vec<ConsistencyIssue> = Vec::new();
        let mut i: usize = 0;
        assert(rows.subrange(0, 0) =~= Seq::empty());
        while i < self.decision_outcomes.len()
            invariant
                i <= rows.len(),
                rows == self.decision_outcomes.rows(),
                issues@ == period_issues(rows.subrange(0, i as int)),
            decreases rows.len() - i,
        {
            proof {
                assert(rows.subrange(0, i + 1).drop_last() =~= rows.subrange(0, i as int));
            }
            let outcome = &self.decision_outcomes.row(i).1;
            let expected: u32 = outcome.decision_id.period_index() + 1;
            if outcome.period_id.0 != expected {
                issues.push(
                    ConsistencyIssue::OutcomePeriodMismatch {
                        decision_id: outcome.decision_id,
                        period_id: outcome.period_id,
                        expected,
                    },
                );
            }
            i += 1;
        }
        assert(rows.subrange(0, i as int) =~= rows);
        if issues.len() == 0 {
            let votes: usize = self.votes.len();
            let outcomes: usize = self.decision_outcomes.len();
            issues.push(ConsistencyIssue::Consistent { votes, outcomes });
            assert(issues@ =~= seq![ConsistencyIssue::Consistent { votes, outcomes }]);
        }
        issues
    }

    pub fn get_consensus_outcome(&self, decision_id: DecisionId) -> (r: Option<Real>)
        ensures
            r == if self@.outcomes.dom().contains(decision_id) {
                Some(self@.outcomes[decision_id].outcome_value)
            } else {
                None
            },
    {
        match self.decision_outcomes.get(&decision_id) {
            Some(outcome) => Some(outcome.outcome_value),
            None => None,
        }
    }

    /// The outcomes of a period as values.
    pub fn get_consensus_outcomes_for_period(&self, period_id: VotingPeriodId) -> (r: Vec<
        (DecisionId, Real),
    >)
        ensures
            r@ == outcomes_for(self.decision_outcomes.rows(), period_id).map_values(
                |row: (DecisionId, DecisionOutcome)| (row.0, row.1.outcome_value),
            ),
    {
        let rows = self.get_outcomes_for_period(period_id);
        let mut r: Vec<(DecisionId, Real)> = Vec::new();
        let mut i: usize = 0;
        while i < rows.len()
            invariant
                i <= rows@.len(),
                r@.len() == i,
                forall|j: int|
                    0 <= j < i ==> #[trigger] r@[j] == (rows@[j].0, rows@[j].1.outcome_value),
            decreases rows@.len() - i,
        {
            r.push((rows[i].0, rows[i].1.outcome_value));
            i += 1;
        }
        assert(r@ =~= rows@.map_values(
            |row: (DecisionId, DecisionOutcome)| (row.0, row.1.outcome_value),
        ));
        r
    }

    /// Whether the votes of a period have been reckoned.
    pub fn has_consensus(&self, period_id: VotingPeriodId) -> (r: bool)
        ensures
            r == self@.stats.dom().contains(period_id),
    {
        self.period_stats.contains(&period_id)
    }

    pub fn delete_decision_outcome(&mut self, decision_id: DecisionId) -> (r: bool)
        ensures
            r == old(self)@.outcomes.dom().contains(decision_id),
            final(self)@ == (VotingView {
                outcomes: old(self)@.outcomes.remove(decision_id),
                ..old(self)@
            }),
    {
        self.decision_outcomes.delete(&decision_id)
    }

    pub fn delete_period_stats(&mut self, period_id: VotingPeriodId) -> (r: bool)
        ensures
            r == old(self)@.stats.dom().contains(period_id),
            final(self)@ == (VotingView {
                stats: old(self)@.stats.remove(period_id),
                ..old(self)@
            }),
    {
        self.period_stats.delete(&period_id)
    }
}

/// The ballots of a period among rows, in the order of their times.
pub open spec fn ballots_for(
    rows: Seq<(BallotKey, Ballot)>,
    period_id: VotingPeriodId,
) -> Seq<Ballot>
    decreases rows.len(),
{
    if rows.len() == 0 {
        Seq::empty()
    } else {
        let before = ballots_for(rows.drop_last(), period_id);
        if rows.last().0.period_id == period_id {
            insert_ballot(before, rows.last().1)
        } else {
            before
        }
    }
}

fn insert_by_time<'a>(list: &mut Vec<&'a Ballot>, ballot: &'a Ballot)
    ensures
        final(list)@.map_values(|b: &Ballot| *b) == insert_ballot(
            old(list)@.map_values(|b: &Ballot| *b),
            *ballot,
        ),
{
    let ghost plain = |b: &Ballot| *b;
    let ghost start = list@.map_values(plain);
    let mut at: usize = list.len();
    proof {
        assert(start.subrange(0, at as int) =~= start);
        assert(start.subrange(at as int, start.len() as int) =~= Seq::empty());
        assert(insert_ballot(start, *ballot) + Seq::<Ballot>::empty() =~= insert_ballot(
            start,
            *ballot,
        ));
    }
    while at > 0 && list[at - 1].created_at > ballot.created_at
        invariant
            at <= list@.len(),
            list@ == old(list)@,
            plain == (|b: &Ballot| *b),
            start == list@.map_values(plain),
            insert_ballot(start, *ballot) == insert_ballot(
                start.subrange(0, at as int),
                *ballot,
            ) + start.subrange(at as int, start.len() as int),
        decreases at,
    {
        proof {
            let head = start.subrange(0, at as int);
            assert(head.drop_last() =~= start.subrange(0, at - 1));
            assert(head.last() == *list@[at - 1]);
            let tail = start.subrange(at as int, start.len() as int);
            let next = start.subrange(at - 1, start.len() as int);
            assert(insert_ballot(head.drop_last(), *ballot).push(head.last()) + tail
                =~= insert_ballot(head.drop_last(), *ballot) + next);
        }
        at -= 1;
    }
    proof {
        let head = start.subrange(0, at as int);
        if at > 0 {
            assert(head.last() == *list@[at - 1]);
        }
        assert(insert_ballot(head, *ballot) =~= head.push(*ballot));
        assert(old(list)@.insert(at as int, ballot).map_values(plain) =~= head.push(*ballot)
            + start.subrange(at as int, start.len() as int));
    }
    list.insert(at, ballot);
}

/// The votes for a period are all of its votes.
pub proof fn votes_for_period_are_all(
    rows: Seq<(VoteMatrixKey, VoteMatrixEntry)>,
    period_id: VotingPeriodId,
)
    requires
        ascending(rows),
    ensures
        votes_for(rows, period_id) == votes_where(
            rows,
            |key: VoteMatrixKey| key.period_id.0 == period_id.0,
        ),
    decreases rows.len(),
{
    let holds = |key: VoteMatrixKey| key.period_id.0 == period_id.0;
    let keep = |row: (VoteMatrixKey, VoteMatrixEntry)| holds(row.0);
    reveal(Seq::filter);
    if rows.len() == 0 {
        assert(rows.filter(keep) =~= Seq::empty());
    } else {
        let rest = rows.skip(1);
        assert(ascending(rest)) by {
            assert forall|i: int, j: int| 0 <= i < j < rest.len() implies #[trigger] bytes_before(
                rest[i].0.key_bytes(),
                rest[j].0.key_bytes(),
            ) by {
                assert(bytes_before(rows[i + 1].0.key_bytes(), rows[j + 1].0.key_bytes()));
            }
        }
        votes_for_period_are_all(rest, period_id);
        assert(rows =~= seq![rows[0]] + rest);
        lemma_filter_first(rows, keep);
        if rows[0].0.period_id.0 > period_id.0 {
            assert forall|i: int| 0 <= i < rows.len() implies !keep(#[trigger] rows[i]) by {
                if i > 0 {
                    assert(bytes_before(rows[0].0.key_bytes(), rows[i].0.key_bytes()));
                    lemma_period_leads(rows[0].0, rows[i].0);
                }
            }
            lemma_filter_none(rows, keep);
        }
    }
}

proof fn lemma_period_leads(a: VoteMatrixKey, b: VoteMatrixKey)
    requires
        bytes_before(a.key_bytes(), b.key_bytes()),
    ensures
        a.period_id.0 <= b.period_id.0,
{
    let s = a.voter_address.0@ + a.decision_id.0@;
    let t = b.voter_address.0@ + b.decision_id.0@;
    assert(a.key_bytes() =~= be32(a.period_id.0) + s);
    assert(b.key_bytes() =~= be32(b.period_id.0) + t);
    bytes_before_by_start(be32(a.period_id.0), be32(b.period_id.0), s, t);
    be32_order(a.period_id.0, b.period_id.0);
    if be32(a.period_id.0) == be32(b.period_id.0) {
        be32_injective(a.period_id.0, b.period_id.0);
    }
}

proof fn lemma_filter_first<T>(s: Seq<T>, keep: spec_fn(T) -> bool)
    requires
        s.len() > 0,
    ensures
        s.filter(keep) == if keep(s[0]) {
            seq![s[0]] + s.skip(1).filter(keep)
        } else {
            s.skip(1).filter(keep)
        },
    decreases s.len(),
{
    reveal(Seq::filter);
    if s.len() == 1 {
        assert(s.drop_last() =~= Seq::empty());
        assert(s.skip(1) =~= Seq::empty());
        assert(s.filter(keep) =~= if keep(s[0]) {
            seq![s[0]] + s.skip(1).filter(keep)
        } else {
            s.skip(1).filter(keep)
        });
    } else {
        let head = s.drop_last();
        lemma_filter_first(head, keep);
        assert(head.skip(1) =~= s.skip(1).drop_last());
        assert(s.skip(1).last() == s.last());
        assert(head[0] == s[0]);
        assert(s.filter(keep) =~= if keep(s[0]) {
            seq![s[0]] + s.skip(1).filter(keep)
        } else {
            s.skip(1).filter(keep)
        });
    }
}

proof fn lemma_filter_none<T>(s: Seq<T>, keep: spec_fn(T) -> bool)
    requires
        forall|i: int| 0 <= i < s.len() ==> !keep(#[trigger] s[i]),
    ensures
        s.filter(keep) == Seq::<T>::empty(),
    decreases s.len(),
{
    reveal(Seq::filter);
    if s.len() > 0 {
        assert forall|i: int| 0 <= i < s.drop_last().len() implies !keep(
            #[trigger] s.drop_last()[i],
        ) by {
            assert(s.drop_last()[i] == s[i]);
        }
        lemma_filter_none(s.drop_last(), keep);
        assert(!keep(s[s.len() - 1]));
    }
    assert(s.filter(keep) =~= Seq::empty());
}

} // verus!
