//! The votes, and what can be asked of them.

use vstd::prelude::*;

use crate::state::decisions::database::all_claimed_entries;
use crate::state::decisions::{Dbs, DecisionId};
use crate::state::reputation::{holders, ReputationDbs};
use crate::state::update::vote_put;
use crate::state::voting::database::{
    outcomes_for, period_issues, votes_for, ConsistencyIssue, VotingDatabases, VotingView,
};
use crate::state::voting::system::{casts, get_participation, resolve_period_decisions, Cast};
use crate::state::voting::types::{
    DecisionOutcome, Vote, VoteMatrixEntry, VoteMatrixKey, VotingPeriod, VotingPeriodId,
};
use crate::state::{Error, Reason};
use crate::types::Address;

verus! {

pub struct VotingSystem {
    pub databases: VotingDatabases,
}

impl View for VotingSystem {
    type V = VotingView;

    open spec fn view(&self) -> VotingView {
        self.databases@
    }
}

/// How many outcomes were reached by consensus.
pub open spec fn consensus_count(outcomes: Seq<(DecisionId, DecisionOutcome)>) -> nat
    decreases outcomes.len(),
{
    if outcomes.len() == 0 {
        0
    } else {
        consensus_count(outcomes.drop_last()) + if outcomes.last().1.is_consensus {
            1nat
        } else {
            0
        }
    }
}

/// The numbers of votes and voters that there are.
#[derive(Clone, Copy, Debug)]
pub struct SystemStats {
    pub total_periods: u64,
    pub total_votes: u64,
    pub total_voters: u64,
    pub reputation_holders: u64,
}

impl VotingSystem {
    pub fn new() -> (r: Self)
        ensures
            r@ == (VotingView {
                votes: Map::empty(),
                ballots: Map::empty(),
                outcomes: Map::empty(),
                stats: Map::empty(),
            }),
    {
        VotingSystem { databases: VotingDatabases::new() }
    }

    pub fn databases(&self) -> (r: &VotingDatabases)
        ensures
            *r == self.databases,
    {
        &self.databases
    }

    /// Casts a vote in a period. `accepts_votes` says whether the period is
    /// open.
    pub fn cast_vote(&mut self, vote: &Vote, period: &VotingPeriod, accepts_votes: bool) -> (r:
        Result<(), Error>)
        ensures
            if !accepts_votes {
                r == Err::<(), Error>(
                    Error::InvalidTransaction { reason: Reason::PeriodClosed {
                            period_id: vote.period_id,
                            height: vote.block_height,
                            timestamp: vote.timestamp,
                        } },
                ) && *final(self) == *old(self)
            } else if !period.decision_ids@.contains(vote.decision_id) {
                r == Err::<(), Error>(
                    Error::InvalidTransaction {
                        reason: Reason::Text("Decision is not in the period"),
                    },
                ) && *final(self) == *old(self)
            } else {
                r is Ok && final(self)@ == vote_put(old(self)@, *vote)
            },
    {
        if !accepts_votes {
            return Err(Error::InvalidTransaction { reason: Reason::PeriodClosed {
                        period_id: vote.period_id,
                        height: vote.block_height,
                        timestamp: vote.timestamp,
                    } });
        }
        let mut i: usize = 0;
        let mut found = false;
        while i < period.decision_ids.len()
            invariant
                i <= period.decision_ids@.len(),
                found <==> exists|j: int|
                    0 <= j < i && #[trigger] period.decision_ids@[j] == vote.decision_id,
            decreases period.decision_ids@.len() - i,
        {
            if period.decision_ids[i] == vote.decision_id {
                found = true;
                assert(period.decision_ids@[i as int] == vote.decision_id);
            }
            i += 1;
        }
        if !found {
            return Err(
                Error::InvalidTransaction { reason: Reason::Text("Decision is not in the period") },
            );
        }
        self.databases.put_vote(vote);
        Ok(())
    }

    pub fn get_votes_for_period(&self, period_id: VotingPeriodId) -> (r: Vec<
        (VoteMatrixKey, VoteMatrixEntry),
    >)
        ensures
            r@ == votes_for(self.databases.votes.rows(), period_id),
    {
        self.databases.get_votes_for_period(period_id)
    }

    /// The votes of a period that have a value.
    pub fn get_vote_matrix(&self, period_id: VotingPeriodId) -> (r: Vec<Cast>)
        ensures
            r@ == casts(votes_for(self.databases.votes.rows(), period_id)),
    {
        let rows = self.databases.get_votes_for_period(period_id);
        let mut r: Vec<Cast> = Vec::new();
        let mut i: usize = 0;
        assert(rows@.subrange(0, 0) =~= Seq::empty());
        while i < rows.len()
            invariant
                i <= rows@.len(),
                r@ == casts(rows@.subrange(0, i as int)),
            decreases rows@.len() - i,
        {
            assert(rows@.subrange(0, i + 1).drop_last() =~= rows@.subrange(0, i as int));
            match rows[i].1.value {
                Some(value) => r.push((rows[i].0.voter_address, rows[i].0.decision_id, value)),
                None => {},
            }
            i += 1;
        }
        assert(rows@.subrange(0, i as int) =~= rows@);
        r
    }

    /// Who voted in a period, each once, and how many votes there are.
    pub fn get_participation_stats(&self, period_id: VotingPeriodId) -> (r: (Vec<Address>, usize))
        ensures
            ({
                let votes = votes_for(self.databases.votes.rows(), period_id);
                &&& r.0@.no_duplicates()
                &&& forall|a: Address| #[trigger]
                    r.0@.contains(a) <==> exists|j: int|
                        0 <= j < votes.len() && (#[trigger] votes[j]).0.voter_address == a
                &&& r.1 == votes.len()
            }),
    {
        get_participation(&self.databases, period_id)
    }

    /// The outcomes of a period in the order of the decisions.
    pub fn resolve_period_decisions(&self, period_id: VotingPeriodId) -> (r: Result<
        Vec<DecisionOutcome>,
        Error,
    >)
        ensures
            ({
                let stored = outcomes_for(self.databases.decision_outcomes.rows(), period_id);
                if stored.len() == 0 {
                    r is Err && r->Err_0 == Error::ConsensusNotYetCalculated(period_id)
                } else {
                    r is Ok && r->Ok_0@ == stored.map_values(
                        |row: (DecisionId, DecisionOutcome)| row.1,
                    )
                }
            }),
    {
        resolve_period_decisions(&self.databases, period_id)
    }

    pub fn get_period_outcomes(&self, period_id: VotingPeriodId) -> (r: Vec<
        (DecisionId, DecisionOutcome),
    >)
        ensures
            r@ == outcomes_for(self.databases.decision_outcomes.rows(), period_id),
    {
        self.databases.get_outcomes_for_period(period_id)
    }

    /// How many decisions of a period were reached by consensus.
    pub fn count_consensus_decisions(&self, period_id: VotingPeriodId) -> (r: u64)
        ensures
            r == consensus_count(
                outcomes_for(self.databases.decision_outcomes.rows(), period_id),
            ),
    {
        let outcomes = self.databases.get_outcomes_for_period(period_id);
        let mut n: u64 = 0;
        let mut i: usize = 0;
        assert(outcomes@.subrange(0, 0) =~= Seq::empty());
        while i < outcomes.len()
            invariant
                i <= outcomes@.len(),
                n == consensus_count(outcomes@.subrange(0, i as int)),
                n <= i,
            decreases outcomes@.len() - i,
        {
            assert(outcomes@.subrange(0, i + 1).drop_last() =~= outcomes@.subrange(0, i as int));
            if outcomes[i].1.is_consensus {
                n += 1;
            }
            i += 1;
        }
        assert(outcomes@.subrange(0, i as int) =~= outcomes@);
        n
    }

    /// What is wrong with what is stored.
    pub fn validate_consistency(&self) -> (r: Vec<ConsistencyIssue>)
        ensures
            r@ == consistency_of(self.databases),
    {
        self.databases.check_consistency()
    }

    /// How many periods with claimed decisions, votes, voters and holders of
    /// reputation there are.
    pub fn get_system_stats(&self, decisions: &Dbs, reputation: &ReputationDbs) -> (r: SystemStats)
        ensures
            r.total_votes == self.databases.votes.rows().len(),
            r.reputation_holders == holders(reputation.reputation.rows()),
            exists|voters: Seq<Address>| #[trigger]
                lists_voters(voters, self@) && r.total_voters == voters.len(),
            exists|periods: Seq<u32>| #[trigger]
                lists_periods(periods, *decisions) && r.total_periods == periods.len(),
    {
        let votes: usize = self.databases.count_total_votes();
        let voters = self.databases.get_all_voters();
        let entries = decisions.get_all_claimed_decisions();
        let ghost all = all_claimed_entries(decisions.period_decisions.rows());
        let mut periods: Vec<u32> = Vec::new();
        let mut i: usize = 0;
        while i < entries.len()
            invariant
                i <= entries@.len(),
                all == entries@,
                periods@.no_duplicates(),
                forall|p: u32| #[trigger]
                    periods@.contains(p) <==> exists|j: int|
                        0 <= j < i && (#[trigger] all[j]).decision_id.period() + 1 == p,
            decreases entries@.len() - i,
        {
            let period: u32 = entries[i].decision_id.voting_period();
            let ghost before = periods@;
            add_period(&mut periods, period);
            proof {
                assert forall|p: u32| #[trigger] periods@.contains(p) <==> exists|j: int|
                    0 <= j < i + 1 && (#[trigger] all[j]).decision_id.period() + 1 == p by {
                    if before.contains(p) {
                        let j = choose|j: int|
                            0 <= j < i && (#[trigger] all[j]).decision_id.period() + 1 == p;
                        assert(0 <= j < i + 1);
                    }
                    if p == period {
                        assert(all[i as int].decision_id.period() + 1 == p);
                    }
                }
            }
            i += 1;
        }
        assert(lists_voters(voters@, self@));
        assert(lists_periods(periods@, *decisions));
        SystemStats {
            total_periods: periods.len() as u64,
            total_votes: votes as u64,
            total_voters: voters.len() as u64,
            reputation_holders: reputation.count_holders(),
        }
    }
}

/// What a check of the stored outcomes says.
pub open spec fn consistency_of(databases: VotingDatabases) -> Seq<ConsistencyIssue> {
    let issues = period_issues(databases.decision_outcomes.rows());
    if issues.len() == 0 {
        seq![
            ConsistencyIssue::Consistent {
                votes: databases.votes.rows().len() as usize,
                outcomes: databases.decision_outcomes.rows().len() as usize,
            },
        ]
    } else {
        issues
    }
}

/// All voters, each once.
pub open spec fn lists_voters(voters: Seq<Address>, view: VotingView) -> bool {
    &&& voters.no_duplicates()
    &&& forall|a: Address| #[trigger]
        voters.contains(a) <==> exists|key: VoteMatrixKey| #[trigger]
            view.votes.dom().contains(key) && key.voter_address == a
}

/// The periods in which claimed decisions are voted on, each once.
pub open spec fn lists_periods(periods: Seq<u32>, decisions: Dbs) -> bool {
    let all = all_claimed_entries(decisions.period_decisions.rows());
    &&& periods.no_duplicates()
    &&& forall|p: u32| #[trigger]
        periods.contains(p) <==> exists|j: int|
            0 <= j < all.len() && (#[trigger] all[j]).decision_id.period() + 1 == p
}

/// Adds a period to a list, unless it is there.
fn add_period(list: &mut Vec<u32>, period: u32)
    requires
        old(list)@.no_duplicates(),
    ensures
        final(list)@.no_duplicates(),
        forall|p: u32| #[trigger]
            final(list)@.contains(p) <==> old(list)@.contains(p) || p == period,
{
    let mut i: usize = 0;
    while i < list.len()
        invariant
            i <= list@.len(),
            list@ == old(list)@,
            list@.no_duplicates(),
            forall|j: int| 0 <= j < i ==> list@[j] != period,
        decreases list@.len() - i,
    {
        if list[i] == period {
            assert(list@[i as int] == period);
            return;
        }
        i += 1;
    }
    let ghost before = list@;
    list.push(period);
    proof {
        let after = list@;
        assert(after[before.len() as int] == period);
        assert forall|p: u32| #[trigger] after.contains(p) <==> before.contains(p) || p
            == period by {
            if before.contains(p) {
                assert(after[before.index_of(p)] == p);
            }
            if after.contains(p) && p != period {
                assert(before[after.index_of(p)] == p);
            }
        }
    }
}

} // verus!
