//! Decisions, their periods and their prices.

use truthcoin::state::decisions::database::Dbs;
use truthcoin::state::decisions::types::{
    period_to_name, period_to_string, Decision, DecisionConfig, DecisionId, DecisionState,
    DecisionStateHistory, DecisionType,
};
use truthcoin::state::decisions::pricing::{slot_unlocked, PeriodPricing};
use truthcoin::state::markets::types::{
    parse_dimensions, DimensionSpec, MarketError, MarketId, ShareAccount,
};
use truthcoin::state::voting::plurality::{agreement, plurality_winner};
use truthcoin::state::{Error, Reason};
use truthcoin::types::{Real, Txid};

fn bits_of(x: f64) -> Real {
    Real { bits: x.to_bits() }
}

#[test]
fn an_id_holds_its_parts() {
    let id = DecisionId::new(true, 100, 7).unwrap();
    assert!(id.is_standard());
    assert_eq!((id.period_index(), id.decision_index()), (100, 7));
    assert_eq!(id.voting_period(), 101);
    let other = DecisionId::new(false, 127, 65535).unwrap();
    assert!(!other.is_standard());
    assert_eq!((other.period_index(), other.decision_index()), (127, 65535));
    assert_eq!(DecisionId::from_bytes(other.as_bytes()).unwrap(), other);
    assert_eq!(DecisionId::from_hex(&other.to_hex()).unwrap(), other);
    assert_ne!(id, other);
}

#[test]
fn an_id_has_limits() {
    assert!(matches!(
        DecisionId::new(true, 128, 0),
        Err(
            Error::InvalidDecisionId {
                reason: Reason::PeriodAboveMaximum { period: 128, maximum: 127 },
            },
        )
    ));
    assert!(matches!(
        DecisionId::new(true, 0, 65536),
        Err(
            Error::InvalidDecisionId {
                reason: Reason::IndexAboveMaximum { index: 65536, maximum: 65535 },
            },
        )
    ));
    assert!(DecisionId::from_hex("0100").is_err());
    assert!(DecisionId::from_hex("01000g").is_err());
}

#[test]
fn states_follow_each_other() {
    let states = [
        DecisionState::Created,
        DecisionState::Claimed,
        DecisionState::Voting,
        DecisionState::Resolved,
        DecisionState::Invalid,
    ];
    for from in states {
        for to in states {
            let allowed = matches!(
                (from, to),
                (DecisionState::Claimed, DecisionState::Voting)
                    | (DecisionState::Voting, DecisionState::Resolved)
                    | (_, DecisionState::Invalid)
            );
            assert_eq!(from.can_transition_to(to), allowed, "{from:?} {to:?}");
        }
    }
    assert!(DecisionState::Voting.allows_voting() && !DecisionState::Claimed.allows_voting());
    assert!(DecisionState::Resolved.has_consensus() && !DecisionState::Voting.has_consensus());
}

#[test]
fn a_history_is_kept_and_rolled_back() {
    let mut history = DecisionStateHistory::new_claimed(10);
    assert_eq!(history.current_state(), DecisionState::Claimed);
    assert!(history.transition_to_resolved(bits_of(0.5), 11).is_err());
    history.transition_to_voting(20).unwrap();
    assert!(history.can_accept_votes());
    history.transition_to_resolved(bits_of(0.75), 30).unwrap();
    assert_eq!(history.consensus_outcome(), Some(bits_of(0.75)));
    assert!(history.has_consensus());
    assert_eq!(history.state_at_height(25), DecisionState::Voting);
    assert_eq!(history.state_at_height(9), DecisionState::Created);
    assert_eq!(history.get_state_height(DecisionState::Voting), Some(20));
    assert!(history.has_reached_state(DecisionState::Claimed));
    history.rollback_to_height(20);
    assert_eq!(history.current_state(), DecisionState::Voting);
    assert_eq!(history.consensus_outcome(), None);
    history.rollback_to_height(9);
    assert_eq!(history.current_state(), DecisionState::Created);
}

#[test]
fn a_period_is_blocks_or_a_quarter() {
    let blocks = DecisionConfig::testing(10);
    assert!(blocks.is_blocks_mode());
    assert_eq!((blocks.blocks_per_period(), blocks.seconds_per_period()), (Some(10), None));
    let seconds = DecisionConfig::production(7_889_400);
    assert!(!seconds.is_blocks_mode());
    assert_eq!(
        (seconds.blocks_per_period(), seconds.seconds_per_period()),
        (None, Some(7_889_400))
    );
    assert_eq!(period_to_string(3, &blocks), "Testing Period 3");
    assert_eq!(period_to_string(3, &seconds), period_to_name(3));
}

fn decision(decision_type: DecisionType, header: &str) -> Result<Decision, Error> {
    Decision::new(
        [1; 20],
        decision_type,
        header.to_string(),
        String::new(),
        None,
        None,
        vec![].into_boxed_slice(),
        true,
    )
}

#[test]
fn a_scaled_decision_has_a_range() {
    let scaled = |min: f64, max: f64, increment: f64| DecisionType::Scaled {
        min: bits_of(min),
        max: bits_of(max),
        increment: bits_of(increment),
    };
    let good = decision(scaled(0.0, 10.0, 0.5), "h").unwrap();
    assert!(good.is_scaled() && !good.is_categorical());
    assert_eq!(good.scale_min(), Some(bits_of(0.0)));
    assert_eq!(good.scale_max(), Some(bits_of(10.0)));
    assert_eq!(good.option_count(), None);
    assert!(decision(scaled(10.0, 10.0, 0.5), "h").is_err());
    assert!(decision(scaled(f64::NAN, 10.0, 0.5), "h").is_err());
    assert!(decision(scaled(0.0, 10.0, 0.0), "h").is_err());
    let unaligned = Decision::new(
        [1; 20],
        scaled(0.0, 10.0, 3.0),
        "h".to_string(),
        String::new(),
        None,
        None,
        vec![].into_boxed_slice(),
        false,
    );
    assert!(unaligned.is_err());
}

#[test]
fn the_texts_of_a_decision_have_limits() {
    assert!(decision(DecisionType::Binary, "").is_ok());
    assert!(decision(DecisionType::Binary, &"x".repeat(100)).is_ok());
    assert!(decision(DecisionType::Binary, &"x".repeat(101)).is_err());
    let binary = decision(DecisionType::Binary, "h").unwrap();
    assert_eq!(binary.get_binary_labels(), ("No".to_string(), "Yes".to_string()));
}

#[test]
fn the_identity_of_a_decision_is_the_hash_of_its_encoding() {
    let binary = decision(DecisionType::Binary, "h").unwrap();
    let mut bytes = vec![1u8; 20];
    bytes.push(0);
    bytes.extend([1, 0, 0, 0, b'h']);
    bytes.extend([0, 0, 0, 0]);
    bytes.extend([0, 0]);
    bytes.extend([0, 0, 0, 0]);
    assert_eq!(binary.id(), *blake3::hash(&bytes).as_bytes());
}

#[test]
fn a_category_has_options() {
    let options = |names: &[&str]| DecisionType::Category {
        options: names.iter().map(|name| name.to_string()).collect::<Vec<_>>().into_boxed_slice(),
    };
    let good = decision(options(&["a", "b", "c"]), "h").unwrap();
    assert!(good.is_categorical());
    assert_eq!(good.get_category_labels().unwrap().len(), 3);
    assert!(good.option_count().unwrap() >= 3);
    assert!(decision(options(&["a"]), "h").is_err());
}

#[test]
fn prices_are_restored() {
    let mut dbs = Dbs::new(5_000);
    dbs.mint_genesis(0, 0);
    let before = dbs.get_period_pricing(3).unwrap();
    dbs.snapshot_period_pricing(7);
    dbs.finish_block_pricing(&vec![(3, PeriodPricing { p_period: 1, ..before })]);
    assert_eq!(dbs.get_period_pricing(3).unwrap().p_period, 1);
    dbs.restore_period_pricing_undo(7);
    assert_eq!(dbs.get_period_pricing(3).unwrap().p_period, before.p_period);
    assert_eq!(dbs.compute_p_average(0), 5_000);
}

#[test]
fn claiming_is_checked() {
    let mut dbs = Dbs::new(5_000);
    dbs.mint_genesis(0, 0);
    let id = DecisionId::new(true, 4, 0).unwrap();
    assert!(dbs.validate_decision_claim(id, 0).is_ok());
    assert_eq!(dbs.get_available_decisions_in_period(4, 0).unwrap()[0], id);
    let claimed = decision(DecisionType::Binary, "h").unwrap();
    dbs.claim_decision(id, claimed, Txid([1; 32]), Some(0)).unwrap();
    assert!(dbs.validate_decision_claim(id, 0).is_err());
    assert_eq!(dbs.claimed_count_in_period(4), 1);
    assert_eq!(dbs.get_claimed_decisions_in_period(4).len(), 1);
    assert_eq!(dbs.get_all_claimed_decisions().len(), 1);
    assert_ne!(dbs.get_available_decisions_in_period(4, 0).unwrap()[0], id);
    assert!(!dbs.is_decision_settled(id, 4));
    dbs.revert_decision_claim(id);
    assert_eq!(dbs.claimed_count_in_period(4), 0);
    assert!(dbs.validate_decision_claim(id, 0).is_ok());
    // a period that is over, and one that is not in sight
    assert!(dbs.validate_decision_claim(DecisionId::new(true, 0, 0).unwrap(), 1).is_err());
    assert!(dbs.validate_decision_claim(DecisionId::new(true, 100, 0).unwrap(), 0).is_err());
}

#[test]
fn the_first_slots_are_unlocked_by_mints() {
    assert!(!slot_unlocked(0, 0));
    assert!(slot_unlocked(0, 1));
}

#[test]
fn dimensions_are_parsed() {
    let a = DecisionId::new(true, 1, 2).unwrap();
    let b = DecisionId::new(false, 3, 4).unwrap();
    let text = format!("[{},[{}]]", a.to_hex(), b.to_hex());
    assert_eq!(
        parse_dimensions(&text).unwrap(),
        vec![DimensionSpec::Single(a), DimensionSpec::Categorical(b)]
    );
    assert_eq!(parse_dimensions(" [ , ] ").unwrap(), vec![]);
    assert_eq!(parse_dimensions("[]").unwrap(), vec![]);
    let text = format!("[[{}],{},{},[{}]]", a.to_hex(), b.to_hex(), b.to_hex(), a.to_hex());
    assert_eq!(
        parse_dimensions(&text).unwrap(),
        vec![
            DimensionSpec::Categorical(a),
            DimensionSpec::Single(b),
            DimensionSpec::Single(b),
            DimensionSpec::Categorical(a),
        ]
    );
    for bad in ["", "[", "010203", "[010203", "[[010203]", "[01020]", "[[[010203]]]"] {
        assert!(
            matches!(parse_dimensions(bad), Err(MarketError::InvalidDimensions)),
            "{bad}"
        );
    }
}

#[test]
fn shares_are_added_and_removed() {
    let market = MarketId::new([1; 6]);
    let mut account = ShareAccount::new();
    account.add_shares(market, 0, 10, 5);
    assert_eq!(account.get_position(&market, 0), 10);
    assert_eq!(account.last_updated_height, 5);
    assert!(account.remove_shares(&market, 0, 11, 6).is_err());
    account.remove_shares(&market, 0, 4, 6).unwrap();
    assert_eq!(account.get_position(&market, 0), 6);
    account.remove_shares(&market, 0, 6, 7).unwrap();
    assert!(account.get_all_positions().is_empty());
    assert!(account.remove_shares(&market, 0, 1, 8).is_err());
}

#[test]
fn the_option_with_most_votes_wins() {
    let votes = vec![Some(1), Some(2), Some(1), None, Some(9)];
    assert_eq!(plurality_winner(&votes, 3), Some(1));
    assert_eq!(
        agreement(&votes, 1),
        vec![Some(true), Some(false), Some(true), None, Some(false)]
    );
    assert_eq!(plurality_winner(&vec![None, Some(7)], 3), Some(3));
    assert_eq!(plurality_winner(&vec![Some(7)], 2), Some(2));
    assert_eq!(plurality_winner(&vec![Some(0), Some(1)], 2), Some(2));
    assert_eq!(plurality_winner(&vec![None, None], 3), None);
    assert_eq!(plurality_winner(&vec![], 3), None);
}

#[test]
fn what_a_fee_rests_on() {
    let mut dbs = Dbs::new(5_000);
    dbs.mint_genesis(0, 0);
    let id = DecisionId::new(true, 4, 9).unwrap();
    let pricing = dbs.get_period_pricing(4).unwrap();
    assert_eq!(
        dbs.fee_basis_for_decision_id(id).unwrap(),
        (pricing.p_period, pricing.mints, 9)
    );
    assert!(dbs.fee_basis_for_decision_id(DecisionId::new(true, 90, 0).unwrap()).is_err());
    assert_eq!(dbs.get_standard_claimed_count_in_period(4), 0);
    assert_eq!(dbs.get_available_decisions(4, 0), dbs.total_for(4, 0));
    let category = decision(
        DecisionType::Category {
            options: vec!["a".to_string(), "b".to_string()].into_boxed_slice(),
        },
        "h",
    )
    .unwrap();
    assert_eq!(category.inconclusive_index(), Some(2));
}
