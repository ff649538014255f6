//! What becomes of the reputations of voters.

use truthcoin::state::reputation::ReputationDbs;
use truthcoin::state::voting::system::{
    compute_post_consensus_reputation, largest_voter, verify_reputation_conservation,
    ReputationSums,
};
use truthcoin::state::Error;
use truthcoin::table::Table;
use truthcoin::types::{Address, Real};

fn addr(b: u8) -> Address {
    Address([b; 20])
}

fn bits_of(x: f64) -> Real {
    Real { bits: x.to_bits() }
}

fn number(x: Real) -> f64 {
    f64::from_bits(x.bits)
}

fn get(m: &Table<Address, Real>, address: Address) -> Option<f64> {
    m.get(&address).map(|rep| number(*rep))
}

fn table(rows: &[(Address, f64)]) -> Table<Address, Real> {
    let mut m = Table::new();
    for (address, rep) in rows {
        m.put(*address, bits_of(*rep));
    }
    m
}

fn pre_state_unit() -> Table<Address, Real> {
    table(&[(addr(1), 0.6), (addr(2), 0.4)])
}

fn sum(m: &Table<Address, Real>) -> f64 {
    (0..m.len()).map(|i| number(m.row(i).1)).sum()
}

fn conservation(pre: &Table<Address, Real>, post: &Table<Address, Real>) -> Result<(), Error> {
    let (pre_sum, post_sum) = (sum(pre), sum(post));
    verify_reputation_conservation(&ReputationSums {
        pre_sum: bits_of(pre_sum),
        post_sum: bits_of(post_sum),
        block_drift: bits_of((post_sum - pre_sum).abs()),
        anchor: bits_of(1.0),
        anchor_drift: bits_of((post_sum - 1.0).abs()),
        block_limit: bits_of(1e-9),
        anchor_limit: bits_of(1e-6),
    })
}

fn reanchor(post: &mut Table<Address, Real>) {
    let residual = 1.0 - sum(post);
    if residual == 0.0 {
        return;
    }
    if let Some(address) = largest_voter(post) {
        let rep = get(post, address).unwrap();
        post.put(address, bits_of(rep + residual));
    }
}

#[test]
fn compute_post_replaces_and_drops() {
    let pre = pre_state_unit();
    let updates = vec![(addr(1), bits_of(0.5)), (addr(2), bits_of(0.0)), (addr(3), bits_of(0.5))];
    let post = compute_post_consensus_reputation(&pre, &updates);
    assert_eq!(get(&post, addr(1)), Some(0.5));
    assert_eq!(get(&post, addr(2)), None);
    assert_eq!(get(&post, addr(3)), Some(0.5));
}

#[test]
fn per_block_rejects_mint() {
    let pre = pre_state_unit();
    let mut post = pre_state_unit();
    post.put(addr(1), bits_of(0.6 + 1e-8));
    let err = conservation(&pre, &post).unwrap_err();
    assert!(
        matches!(err, Error::ConsensusConservationViolation { .. }),
        "unexpected error: {err:?}"
    );
}

#[test]
fn per_block_rejects_burn() {
    let pre = pre_state_unit();
    let mut post = pre_state_unit();
    post.put(addr(1), bits_of(0.6 - 1e-8));
    let err = conservation(&pre, &post).unwrap_err();
    assert!(
        matches!(err, Error::ConsensusConservationViolation { .. }),
        "unexpected error: {err:?}"
    );
}

#[test]
fn per_block_accepts_within_epsilon() {
    let pre = pre_state_unit();
    let mut post = pre_state_unit();
    post.put(addr(1), bits_of(0.6 + 1e-11));
    post.put(addr(2), bits_of(0.4 - 1e-11));
    assert!(conservation(&pre, &post).is_ok());
}

#[test]
fn anchor_rejects_cumulative_drift() {
    let pre = table(&[(addr(1), 0.6 + 1.5e-6), (addr(2), 0.4)]);
    let err = conservation(&pre, &pre).unwrap_err();
    assert!(
        matches!(err, Error::ReputationAnchorViolation { .. }),
        "unexpected error: {err:?}"
    );
}

#[test]
fn anchor_accepts_within_epsilon() {
    let pre = table(&[(addr(1), 0.6 + 5e-8), (addr(2), 0.4)]);
    assert!(conservation(&pre, &pre).is_ok());
}

#[test]
fn compute_post_preserves_untouched_voters() {
    let pre = pre_state_unit();
    let updates = vec![(addr(1), bits_of(0.7))];
    let post = compute_post_consensus_reputation(&pre, &updates);
    assert_eq!(get(&post, addr(2)), Some(0.4));
}

#[test]
fn reanchor_restores_unit_sum_after_drift() {
    let mut post = table(&[(addr(1), 0.5 + 1e-10), (addr(2), 0.5 - 2e-10)]);
    reanchor(&mut post);
    assert_eq!(sum(&post).to_bits(), 1.0_f64.to_bits());
}

#[test]
fn reanchor_handles_empty_map() {
    let mut post: Table<Address, Real> = Table::new();
    reanchor(&mut post);
    assert!(post.is_empty());
}

#[test]
fn reanchor_targets_largest_voter_with_deterministic_tiebreak() {
    let mut post = table(&[(addr(2), 0.5), (addr(1), 0.5 - 3e-10)]);
    reanchor(&mut post);
    assert_eq!(sum(&post).to_bits(), 1.0_f64.to_bits());
    assert!(get(&post, addr(2)).unwrap() > 0.5);

    // of two with the same reputation, the last by address
    let tied = table(&[(addr(1), 0.5), (addr(2), 0.5)]);
    assert_eq!(largest_voter(&tied), Some(addr(2)));
}

#[test]
fn reanchor_repeated_drift_never_accumulates() {
    let mut post = table(&[(addr(1), 0.6), (addr(2), 0.4)]);
    for i in 0..10_000 {
        let delta = 1e-12 * (i as f64 % 7.0 - 3.0);
        let (one, two) = (get(&post, addr(1)).unwrap(), get(&post, addr(2)).unwrap());
        post.put(addr(1), bits_of(one + delta));
        post.put(addr(2), bits_of(two - delta));
        reanchor(&mut post);
    }
    let sum = sum(&post);
    assert!((sum - 1.0).abs() < 1e-15, "drift accumulated: sum = {sum:.20}");
}

#[test]
fn numbers_are_ordered_as_they_are_written() {
    let numbers = [f64::NEG_INFINITY, -1.5, -0.0, 1e-300, 0.5, 1.0, 2.5, f64::INFINITY];
    for (i, a) in numbers.iter().enumerate() {
        for (j, b) in numbers.iter().enumerate() {
            assert_eq!(bits_of(*a).is_less(bits_of(*b)), a < b, "{i} {j}");
        }
    }
    assert!(!bits_of(0.0).is_less(bits_of(-0.0)));
    assert!(!bits_of(-0.0).is_less(bits_of(0.0)));
    assert!(!bits_of(f64::NAN).is_less(bits_of(1.0)));
    assert!(!bits_of(1.0).is_less(bits_of(f64::NAN)));
    assert!(bits_of(f64::NAN).is_nan() && !bits_of(f64::INFINITY).is_nan());
    assert!(bits_of(1.0).is_finite() && !bits_of(f64::INFINITY).is_finite());
}

#[test]
fn only_reputation_above_zero_is_kept() {
    let mut dbs = ReputationDbs::new();
    dbs.set_reputation(&addr(1), bits_of(0.25));
    dbs.set_reputation(&addr(2), bits_of(0.5));
    assert_eq!(number(dbs.get_reputation(&addr(1))), 0.25);
    assert_eq!(number(dbs.get_reputation(&addr(9))), 0.0);
    assert_eq!(dbs.count_holders(), 2);

    dbs.set_reputation(&addr(1), bits_of(0.0));
    assert_eq!(dbs.count_holders(), 1);
    assert_eq!(dbs.get_all_reputations().len(), 1);

    dbs.clear_and_restore(&table(&[(addr(3), 1.0), (addr(4), 0.0)]));
    assert_eq!(dbs.count_holders(), 1);
    assert_eq!(number(dbs.get_reputation(&addr(3))), 1.0);
    assert_eq!(number(dbs.get_reputation(&addr(2))), 0.0);
    dbs.delete_reputation(&addr(3));
    assert_eq!(dbs.count_holders(), 0);
}
