//! Votes, and what comes of them.

use vstd::prelude::*;

use crate::bytes::{append, be32, be32_injective, lemma_array_equal, push_be32};
use crate::state::decisions::DecisionId;
use crate::table::Key;
use crate::types::{Address, Real};

verus! {

/// The period in which a vote is cast.
#[derive(Clone, Copy, Debug, PartialEq, Eq, PartialOrd, Ord, Hash, Structural)]
pub struct VotingPeriodId(pub u32);

impl VotingPeriodId {
    pub fn new(id: u32) -> (r: Self)
        ensures
            r.0 == id,
    {
        VotingPeriodId(id)
    }

    pub fn as_u32(&self) -> (r: u32)
        ensures
            r == self.0,
    {
        self.0
    }
}

impl Key for VotingPeriodId {
    open spec fn key_bytes(&self) -> Seq<u8> {
        be32(self.0)
    }

    proof fn key_bytes_injective(a: Self, b: Self) {
        assert(a.key_bytes() == be32(a.0) && b.key_bytes() == be32(b.0));
        be32_injective(a.0, b.0);
    }

    fn to_key_bytes(&self) -> (r: Vec<u8>) {
        let mut r: Vec<u8> = Vec::new();
        push_be32(&mut r, self.0);
        assert(r@ =~= be32(self.0));
        r
    }
}

/// Who votes on what, and when.
#[derive(Clone, Copy, Debug)]
pub struct VoteMatrixKey {
    pub period_id: VotingPeriodId,
    pub voter_address: Address,
    pub decision_id: DecisionId,
}

impl VoteMatrixKey {
    pub fn new(
        period_id: VotingPeriodId,
        voter_address: Address,
        decision_id: DecisionId,
    ) -> (r: Self)
        ensures
            r == vote_key(period_id, voter_address, decision_id),
    {
        VoteMatrixKey { period_id, voter_address, decision_id }
    }
}

pub open spec fn vote_key(
    period_id: VotingPeriodId,
    voter_address: Address,
    decision_id: DecisionId,
) -> VoteMatrixKey {
    VoteMatrixKey { period_id, voter_address, decision_id }
}

impl Key for VoteMatrixKey {
    open spec fn key_bytes(&self) -> Seq<u8> {
        be32(self.period_id.0) + self.voter_address.0@ + self.decision_id.0@
    }

    proof fn key_bytes_injective(a: Self, b: Self) {
        let x = a.key_bytes();
        let y = b.key_bytes();
        assert(x.subrange(0, 4) =~= be32(a.period_id.0));
        assert(y.subrange(0, 4) =~= be32(b.period_id.0));
        assert(x.subrange(4, 24) =~= a.voter_address.0@);
        assert(y.subrange(4, 24) =~= b.voter_address.0@);
        assert(x.subrange(24, 27) =~= a.decision_id.0@);
        assert(y.subrange(24, 27) =~= b.decision_id.0@);
        be32_injective(a.period_id.0, b.period_id.0);
        lemma_array_equal(a.voter_address.0, b.voter_address.0);
        lemma_array_equal(a.decision_id.0, b.decision_id.0);
    }

    fn to_key_bytes(&self) -> (r: Vec<u8>) {
        let mut r: Vec<u8> = Vec::new();
        push_be32(&mut r, self.period_id.0);
        append(&mut r, self.voter_address.0.as_slice());
        append(&mut r, self.decision_id.0.as_slice());
        assert(r@ =~= self.key_bytes());
        r
    }
}

/// A vote as it is stored. One without a value abstains.
#[derive(Clone, Copy, Debug)]
pub struct VoteMatrixEntry {
    pub value: Option<Real>,
    pub timestamp: u64,
    pub block_height: u32,
}

impl VoteMatrixEntry {
    pub fn new(value: Option<Real>, timestamp: u64, block_height: u32) -> (r: Self)
        ensures
            r == (VoteMatrixEntry { value, timestamp, block_height }),
    {
        VoteMatrixEntry { value, timestamp, block_height }
    }
}

/// A vote.
#[derive(Clone, Copy, Debug)]
pub struct Vote {
    pub voter_address: Address,
    pub period_id: VotingPeriodId,
    pub decision_id: DecisionId,
    pub value: Option<Real>,
    pub timestamp: u64,
    pub block_height: u32,
    pub tx_hash: [u8; 32],
}

/// Votes that were cast together.
#[derive(Debug)]
pub struct Ballot {
    pub period_id: VotingPeriodId,
    pub created_at: u64,
    pub votes: Box<[Vote]>,
}

/// The key of a ballot: its period and its number.
#[derive(Clone, Copy, Debug)]
pub struct BallotKey {
    pub period_id: VotingPeriodId,
    pub index: u32,
}

impl Key for BallotKey {
    open spec fn key_bytes(&self) -> Seq<u8> {
        be32(self.period_id.0) + be32(self.index)
    }

    proof fn key_bytes_injective(a: Self, b: Self) {
        let x = a.key_bytes();
        let y = b.key_bytes();
        assert(x.subrange(0, 4) =~= be32(a.period_id.0));
        assert(y.subrange(0, 4) =~= be32(b.period_id.0));
        assert(x.subrange(4, 8) =~= be32(a.index));
        assert(y.subrange(4, 8) =~= be32(b.index));
        be32_injective(a.period_id.0, b.period_id.0);
        be32_injective(a.index, b.index);
    }

    fn to_key_bytes(&self) -> (r: Vec<u8>) {
        let mut r: Vec<u8> = Vec::new();
        push_be32(&mut r, self.period_id.0);
        push_be32(&mut r, self.index);
        assert(r@ =~= self.key_bytes());
        r
    }
}

/// What voters decided.
#[derive(Clone, Copy, Debug)]
pub struct DecisionOutcome {
    pub decision_id: DecisionId,
    pub period_id: VotingPeriodId,
    pub outcome_value: Real,
    pub min: Real,
    pub max: Real,
    pub confidence: Real,
    pub total_votes: u64,
    pub total_reputation_weight: Real,
    pub is_consensus: bool,
    /// Whether the decision took part in the reckoning of votes.
    pub was_voted_on: bool,
    /// For a category the option that won, if one did.
    pub categorical_winner: Option<Option<u16>>,
}

/// What is known of the voting in a period.
#[derive(Debug)]
pub struct VotingPeriodStats {
    pub period_id: VotingPeriodId,
    pub timestamp: u64,
    pub total_voters: u64,
    pub total_votes: u64,
    pub total_decisions: u64,
    pub avg_participation_rate: Real,
    pub total_reputation_weight: Real,
    pub consensus_decisions: u64,
    pub first_loading: Option<Box<[Real]>>,
    pub certainty: Option<Real>,
    /// The reputation of each voter before and after.
    pub reputation_changes: Option<Box<[(Address, Real, Real)]>>,
}

impl VotingPeriodStats {
    pub open spec fn is_blank(self, period_id: VotingPeriodId, timestamp: u64) -> bool {
        let nought = Real { bits: 0 };
        &&& self.period_id == period_id
        &&& self.timestamp == timestamp
        &&& self.total_voters == 0
        &&& self.total_votes == 0
        &&& self.total_decisions == 0
        &&& self.avg_participation_rate == nought
        &&& self.total_reputation_weight == nought
        &&& self.consensus_decisions == 0
        &&& self.first_loading is None
        &&& self.certainty is None
        &&& self.reputation_changes is None
    }

    pub fn new(period_id: VotingPeriodId, timestamp: u64) -> (r: Self)
        ensures
            r.is_blank(period_id, timestamp),
    {
        VotingPeriodStats {
            period_id,
            timestamp,
            total_voters: 0,
            total_votes: 0,
            total_decisions: 0,
            avg_participation_rate: Real { bits: 0 },
            total_reputation_weight: Real { bits: 0 },
            consensus_decisions: 0,
            first_loading: None,
            certainty: None,
            reputation_changes: None,
        }
    }
}

#[derive(Clone, Copy, Debug)]
pub struct DecisionResolutionEntry {
    pub decision_id: DecisionId,
    pub outcome_value: Real,
}

/// What comes of the votes of a period.
#[derive(Debug)]
pub struct ConsensusResult {
    pub period_id: VotingPeriodId,
    pub block_height: u32,
    pub timestamp: u64,
    pub total_decisions: usize,
    pub period_stats: VotingPeriodStats,
    pub decision_outcomes: Vec<DecisionOutcome>,
    pub decision_resolutions: Vec<DecisionResolutionEntry>,
    pub updated_reputations: Vec<(Address, Real)>,
}

/// A period whose votes are reckoned.
#[derive(Debug)]
pub struct VotingPeriod {
    pub id: VotingPeriodId,
    pub decision_ids: Vec<DecisionId>,
}

} // verus!
