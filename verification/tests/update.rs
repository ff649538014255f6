//! The changes that the transactions of a block add up to.

use truthcoin::state::markets::types::{MarketId, ShareAccount};
use truthcoin::state::update::StateUpdate;
use truthcoin::types::Address;

const NOBODY: Address = Address([0; 20]);

#[test]
fn test_double_spend_protection_same_block() {
    let mut state_update = StateUpdate::new();
    let trader = NOBODY;
    let market_id = MarketId::new([1u8; 6]);
    let outcome_index: u32 = 0;

    let owned_shares_from_db: i64 = 100;

    state_update.add_share_account_change(trader, market_id, outcome_index, -60);

    let pending_delta = state_update.pending_share_change(&trader, &market_id, outcome_index);

    let effective_owned = owned_shares_from_db + pending_delta;
    assert_eq!(effective_owned, 40);

    let shares_to_sell: i64 = 50;
    assert!(
        effective_owned < shares_to_sell,
        "Double-spend protection: should reject sell of {shares_to_sell} when only {effective_owned} effectively owned"
    );

    let valid_sell: i64 = 40;
    assert!(
        effective_owned >= valid_sell,
        "Should allow selling {valid_sell} when {effective_owned} effectively owned"
    );
}

#[test]
fn test_buy_then_sell_same_block_allowed() {
    let mut state_update = StateUpdate::new();
    let trader = NOBODY;
    let market_id = MarketId::new([2u8; 6]);
    let outcome_index: u32 = 1;

    let owned_shares_from_db: i64 = 0;

    state_update.add_share_account_change(trader, market_id, outcome_index, 100);

    let pending_delta = state_update.pending_share_change(&trader, &market_id, outcome_index);

    let effective_owned = owned_shares_from_db + pending_delta;
    assert_eq!(effective_owned, 100);

    let shares_to_sell: i64 = 50;
    assert!(
        effective_owned >= shares_to_sell,
        "Should allow selling {shares_to_sell} after buying 100 in same block"
    );
}

#[test]
fn test_multiple_sells_different_outcomes_same_block() {
    let mut state_update = StateUpdate::new();
    let trader = NOBODY;
    let market_id = MarketId::new([3u8; 6]);

    let owned_outcome_0: i64 = 100;
    let owned_outcome_1: i64 = 100;

    state_update.add_share_account_change(trader, market_id, 0, -80);

    let pending_delta_0 = state_update.pending_share_change(&trader, &market_id, 0);
    let effective_owned_0 = owned_outcome_0 + pending_delta_0;
    assert_eq!(effective_owned_0, 20);

    let pending_delta_1 = state_update.pending_share_change(&trader, &market_id, 1);
    let effective_owned_1 = owned_outcome_1 + pending_delta_1;
    assert_eq!(effective_owned_1, 100);

    assert!(effective_owned_1 >= 100);
}

#[test]
fn test_cumulative_sells_same_outcome_same_block() {
    let mut state_update = StateUpdate::new();
    let trader = NOBODY;
    let market_id = MarketId::new([4u8; 6]);
    let outcome_index: u32 = 0;

    let owned_shares_from_db: i64 = 100;

    state_update.add_share_account_change(trader, market_id, outcome_index, -30);

    state_update.add_share_account_change(trader, market_id, outcome_index, -40);

    let pending_delta = state_update.pending_share_change(&trader, &market_id, outcome_index);

    assert_eq!(pending_delta, -70);

    let effective_owned = owned_shares_from_db + pending_delta;
    assert_eq!(effective_owned, 30);

    let third_sell: i64 = 40;
    assert!(
        effective_owned < third_sell,
        "Should reject third sell: {third_sell} > {effective_owned} effective"
    );

    assert!(effective_owned >= 30);
}

#[test]
fn share_account_positions_iterate_in_canonical_order() {
    let market_id = MarketId::new([1u8; 6]);
    let mut account = ShareAccount::new();
    account.add_shares(market_id, 2, 10, 0);
    account.add_shares(market_id, 0, 20, 0);
    account.add_shares(market_id, 1, 30, 0);

    let positions = account.get_all_positions();
    let outcomes: Vec<u32> = (0..positions.len())
        .map(|i| positions.row(i).0)
        .filter(|position| position.market_id == market_id)
        .map(|position| position.outcome_index)
        .collect();

    assert_eq!(outcomes, vec![0, 1, 2]);
}
