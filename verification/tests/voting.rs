//! Votes, and what comes of them.

use truthcoin::state::block::disconnect::revert_consensus;
use truthcoin::state::decisions::database::Dbs;
use truthcoin::state::decisions::types::{Decision, DecisionId, DecisionState, DecisionType};
use truthcoin::state::reputation::ReputationDbs;
use truthcoin::state::voting::system::{
    commit_consensus_result, finish_consensus, plan_consensus, ConsensusPlan, Reckoned, Reckoning,
    ReputationSums,
};
use truthcoin::state::voting::database::ConsistencyIssue;
use truthcoin::state::voting::types::{Vote, VotingPeriod, VotingPeriodId};
use truthcoin::state::voting::{VotingDatabases, VotingSystem};
use truthcoin::state::Error;
use truthcoin::table::Table;
use truthcoin::types::{Address, Real, Txid};

const PERIOD: VotingPeriodId = VotingPeriodId(2);

fn bits_of(x: f64) -> Real {
    Real { bits: x.to_bits() }
}

fn number(x: Real) -> f64 {
    f64::from_bits(x.bits)
}

fn addr(b: u8) -> Address {
    Address([b; 20])
}

fn id(index: u32) -> DecisionId {
    DecisionId::new(true, 1, index).unwrap()
}

fn vote(voter: u8, index: u32, value: f64) -> Vote {
    Vote {
        voter_address: addr(voter),
        period_id: PERIOD,
        decision_id: id(index),
        value: Some(bits_of(value)),
        timestamp: 5,
        block_height: 6,
        tx_hash: [0; 32],
    }
}

fn decisions() -> Dbs {
    let mut dbs = Dbs::new(5_000);
    dbs.mint_genesis(0, 0);
    let types = [
        DecisionType::Binary,
        DecisionType::Category {
            options: vec!["a".to_string(), "b".to_string()].into_boxed_slice(),
        },
    ];
    for (i, decision_type) in types.into_iter().enumerate() {
        let decision = Decision::new(
            [0; 20],
            decision_type,
            "h".to_string(),
            String::new(),
            None,
            None,
            vec![].into_boxed_slice(),
            true,
        )
        .unwrap();
        dbs.claim_decision(id(i as u32), decision, Txid([1; 32]), Some(0)).unwrap();
        dbs.transition_decision_to_voting(id(i as u32), 4).unwrap();
    }
    dbs
}

fn reputations() -> ReputationDbs {
    let mut dbs = ReputationDbs::new();
    dbs.set_reputation(&addr(1), bits_of(0.75));
    dbs.set_reputation(&addr(2), bits_of(0.25));
    dbs
}

fn period() -> VotingPeriod {
    VotingPeriod { id: PERIOD, decision_ids: vec![id(1), id(0)] }
}

fn sums(pre: f64, post: f64) -> ReputationSums {
    ReputationSums {
        pre_sum: bits_of(pre),
        post_sum: bits_of(post),
        block_drift: bits_of((post - pre).abs()),
        anchor: bits_of(1.0),
        anchor_drift: bits_of((post - 1.0).abs()),
        block_limit: bits_of(1e-9),
        anchor_limit: bits_of(1e-6),
    }
}

#[test]
fn decisions_without_votes_get_the_default() {
    let voting = VotingDatabases::new();
    let plan =
        plan_consensus(&voting, &reputations(), &decisions(), &period(), bits_of(1.0), 9, 8);
    let ConsensusPlan::Settled(result) = plan else { panic!("nothing is reckoned") };
    assert_eq!(result.decision_outcomes.len(), 2);
    assert_eq!(number(result.decision_outcomes[0].outcome_value), 0.5);
    assert!(!result.decision_outcomes[0].was_voted_on);
    assert!(result.updated_reputations.is_empty());
}

#[test]
fn votes_are_reckoned_stored_and_taken_back() {
    let mut voting = VotingDatabases::new();
    let mut reputation = reputations();
    let mut decisions = decisions();
    voting.put_vote(&vote(1, 0, 1.0));
    voting.put_vote(&vote(2, 0, 0.0));

    // nobody has a weight
    let none = ReputationDbs::new();
    let plan = plan_consensus(&voting, &none, &decisions, &period(), bits_of(0.0), 9, 8);
    assert!(matches!(plan, ConsensusPlan::Skip));

    let plan = plan_consensus(&voting, &reputation, &decisions, &period(), bits_of(1.0), 9, 8);
    let ConsensusPlan::Reckon(input) = plan else { panic!("votes are reckoned") };
    assert_eq!(input.vote_count, 2);
    assert_eq!(input.voters, vec![(addr(1), bits_of(0.75)), (addr(2), bits_of(0.25))]);
    assert_eq!(input.decisions[0].0, id(0));
    assert!(matches!(input.decisions[0].1, Reckoning::Categorical(_) | Reckoning::Binary));
    assert!(matches!(input.decisions[1].1, Reckoning::Categorical(_)));

    let reckoned = Reckoned {
        outcomes: vec![(id(0), Some(bits_of(1.0)))],
        first_loading: vec![bits_of(1.0)],
        certainty: bits_of(0.5),
        updated_reputations: vec![(addr(1), bits_of(0.875)), (addr(2), bits_of(0.125))],
        categorical_winners: Table::new(),
    };
    let result = finish_consensus(
        &voting,
        &reputation,
        &period(),
        2,
        bits_of(1.0),
        reckoned,
        9,
        8,
    );
    assert_eq!(result.decision_outcomes.len(), 2);
    assert_eq!(result.decision_outcomes[0].decision_id, id(0));
    assert!(result.decision_outcomes[0].was_voted_on);
    assert_eq!(number(result.decision_outcomes[1].outcome_value), 0.5);
    let changes = result.period_stats.reputation_changes.as_ref().unwrap();
    assert_eq!(changes[0], (addr(1), bits_of(0.75), bits_of(0.875)));

    let undo = commit_consensus_result(
        &mut voting,
        &mut reputation,
        &mut decisions,
        result,
        &sums(1.0, 1.0),
        Some(bits_of(0.875)),
    )
    .unwrap();
    assert_eq!(number(reputation.get_reputation(&addr(1))), 0.875);
    assert_eq!(decisions.get_decision_current_state(id(0)), DecisionState::Resolved);
    assert!(voting.has_consensus(PERIOD));
    assert_eq!(voting.get_consensus_outcome(id(0)), Some(bits_of(1.0)));
    let again = plan_consensus(&voting, &reputation, &decisions, &period(), bits_of(1.0), 9, 8);
    assert!(matches!(again, ConsensusPlan::Skip));

    revert_consensus(&mut voting, &mut reputation, &vec![undo]);
    assert_eq!(number(reputation.get_reputation(&addr(1))), 0.75);
    assert_eq!(number(reputation.get_reputation(&addr(2))), 0.25);
    assert!(!voting.has_consensus(PERIOD));
    assert_eq!(voting.get_consensus_outcome(id(0)), None);
    assert_eq!(voting.count_total_votes(), 2);
}

#[test]
fn a_result_that_makes_reputation_is_not_stored() {
    let mut voting = VotingDatabases::new();
    let mut reputation = reputations();
    let mut decisions = decisions();
    let plan =
        plan_consensus(&voting, &reputation, &decisions, &period(), bits_of(1.0), 9, 8);
    let ConsensusPlan::Settled(result) = plan else { panic!("nothing is reckoned") };
    assert!(matches!(
        commit_consensus_result(
            &mut voting,
            &mut reputation,
            &mut decisions,
            result,
            &sums(1.0, 1.1),
            None,
        ),
        Err(Error::ConsensusConservationViolation { .. })
    ));
}

#[test]
fn a_result_needs_decisions_with_a_history() {
    let mut voting = VotingDatabases::new();
    let mut reputation = reputations();
    let mut empty = Dbs::new(5_000);
    let plan = plan_consensus(&voting, &reputation, &empty, &period(), bits_of(1.0), 9, 8);
    let ConsensusPlan::Settled(result) = plan else { panic!("nothing is reckoned") };
    assert!(matches!(
        commit_consensus_result(
            &mut voting,
            &mut reputation,
            &mut empty,
            result,
            &sums(1.0, 1.0),
            None,
        ),
        Err(Error::InvalidDecisionId { .. })
    ));
}

#[test]
fn votes_can_be_asked_for() {
    let mut system = VotingSystem::new();
    assert!(system.cast_vote(&vote(1, 0, 1.0), &period(), true).is_ok());
    assert!(system.cast_vote(&vote(2, 1, 0.5), &period(), true).is_ok());
    assert!(system.cast_vote(&vote(3, 1, 0.5), &period(), false).is_err());
    assert_eq!(system.get_votes_for_period(PERIOD).len(), 2);
    assert_eq!(system.databases().get_votes_by_voter(addr(1)).len(), 1);
    assert_eq!(system.databases().get_votes_for_decision(id(1)).len(), 1);
    assert_eq!(system.databases().get_all_voters().len(), 2);
    assert!(system.databases().get_vote(PERIOD, addr(1), id(0)).is_some());
    assert!(system.databases().get_vote(PERIOD, addr(1), id(1)).is_none());
    assert_eq!(system.validate_consistency().len(), 1);
    assert!(matches!(
        system.validate_consistency()[0],
        ConsistencyIssue::Consistent { votes: 2, outcomes: 0 }
    ));
    assert!(matches!(
        system.resolve_period_decisions(PERIOD),
        Err(Error::ConsensusNotYetCalculated(_))
    ));
    let stats = system.get_system_stats(&decisions(), &reputations());
    assert_eq!(stats.total_votes, 2);
    assert_eq!(stats.total_voters, 2);
    assert_eq!(stats.reputation_holders, 2);
}
