//! What is found valid.

use vstd::prelude::*;

use crate::state::block::claims::tags_of;
use crate::state::decisions::database::{claim_problem, DecisionsView};
use crate::state::decisions::types::{Decision, DecisionId, DecisionType};
use crate::state::markets::database::{account_of, MarketsView};
use crate::state::markets::types::{position, DimensionSpec};
use crate::state::Error;
use crate::types::transaction::{total_value, FilledTransaction};
use crate::types::BlockHash;
use crate::validation::decision::{claim_tx_problem, entries_fee, entries_problem, ClaimFigures};
use crate::validation::market::{
    acts_for, amplify_tx_problem, dimension_problem, trade_tx_problem, TradeFigures, TradeLimits,
};
use crate::validation::tx_laws::is_actor;

verus! {

/// A trade that meets all that is asked of it is valid: a purchase that puts in what it
/// offers, and a sale by who has the shares and can pay the miner.
pub proof fn good_trades_are_valid(
    markets: MarketsView,
    tip: Option<BlockHash>,
    height: Option<u32>,
    tx: FilledTransaction,
    figures: TradeFigures,
    limits: TradeLimits,
)
    requires
        tx.transaction.data is Some,
        tx.transaction.data->0 is Trade,
        ({
            let trade = tx.transaction.data->0;
            let m = trade->Trade_market_id;
            let total = total_value(tx.spent_utxos@);
            &&& markets.markets.dom().contains(m)
            &&& markets.markets[m].state is Trading
            &&& trade->Trade_outcome_index < markets.markets[m].shares.len()
            &&& trade->Trade_shares != 0
            &&& trade->Trade_shares != i64::MIN
            &&& tx.transaction.outputs@.len() == 0
            &&& tx.transaction.inputs@.len() > 0
            &&& tx.spent_utxos@.len() > 0
            &&& tip is Some && height is Some && figures.prev_block_height is Some
            &&& Some(trade->Trade_prev_block_hash) == tip || figures.is_ancestor
            &&& height->0 <= figures.prev_block_height->0 + limits.pow_bound_window_blocks
            &&& figures.pow_enabled ==> trade->Trade_tx_pow_nonce is Some && figures.pow_verified
            &&& total <= u64::MAX
            &&& trade->Trade_shares > 0 ==> 0 < trade->Trade_limit_sats <= total
            &&& trade->Trade_shares < 0 ==> {
                &&& is_actor(tx, trade->Trade_trader)
                &&& account_of(markets.accounts, trade->Trade_trader).shares(
                    position(m, trade->Trade_outcome_index),
                ) + trade->Trade_shares >= 0
                &&& limits.miner_fee_sats <= total
            }
        }),
    ensures
        trade_tx_problem(markets, tip, height, tx, figures, limits) is None,
{
    assert(is_actor(tx, tx.transaction.data->0->Trade_trader) ==> acts_for(
        tx,
        tx.transaction.data->0->Trade_trader,
    ));
}

/// An author may deepen an open market of theirs with coins that hold the amount and the
/// fee of the miner.
pub proof fn authors_may_deepen_their_markets(
    markets: MarketsView,
    tx: FilledTransaction,
    miner_fee: u64,
)
    requires
        tx.transaction.data is Some,
        tx.transaction.data->0 is AmplifyBeta,
        ({
            let m = tx.transaction.data->0->AmplifyBeta_market_id;
            let amount = tx.transaction.data->0->AmplifyBeta_amount;
            let author = tx.transaction.data->0->AmplifyBeta_market_author;
            &&& amount > 0
            &&& markets.markets.dom().contains(m)
            &&& markets.markets[m].state is Trading
            &&& markets.markets[m].terms.creator_address == author
            &&& is_actor(tx, author)
            &&& tx.transaction.outputs@.len() == 0
            &&& amount + miner_fee <= total_value(tx.spent_utxos@) <= u64::MAX
        }),
    ensures
        amplify_tx_problem(markets, tx, miner_fee) is None,
{
    assert(acts_for(tx, tx.transaction.data->0->AmplifyBeta_market_author));
}

/// A claim of one decision that is sound and free is valid where its listing fee is left
/// over.
pub proof fn good_claims_are_valid(
    view: DecisionsView,
    tx: FilledTransaction,
    current_period: u32,
    figures: ClaimFigures,
)
    requires
        tx.transaction.data is Some,
        tx.transaction.data->0 is ClaimDecision,
        tx.transaction.inputs@.len() > 0,
        tx.spent_utxos@.len() > 0,
        ({
            let payload = tx.transaction.data->0->ClaimDecision_0;
            let entry = payload.decisions@[0];
            &&& !(payload.decision_type is Category)
            &&& payload.decisions@.len() == 1
            &&& entry.option_labels is None
            &&& Decision::problem(
                payload.decision_type,
                entry.header,
                entry.description,
                tags_of(entry)@,
                figures.aligned,
            ) is None
            &&& claim_problem(view, DecisionId(entry.decision_id_bytes), current_period) is None
            &&& figures.listing_fees@.len() == 1
            &&& figures.listing_fees@[0] is Some
            &&& total_value(tx.transaction.outputs@) + figures.listing_fees@[0]->0 <= total_value(
                tx.spent_utxos@,
            ) <= u64::MAX
        }),
    ensures
        claim_tx_problem(view, tx, current_period, figures) is None,
{
    let payload = tx.transaction.data->0->ClaimDecision_0;
    let none = payload.decisions@.drop_last();
    assert(none.len() == 0);
    assert(payload.decisions@.last() == payload.decisions@[0]);
    assert(entries_problem(
        view,
        none,
        payload.decision_type,
        current_period,
        figures.aligned,
    ) is None);
    assert(entries_problem(
        view,
        payload.decisions@,
        payload.decision_type,
        current_period,
        figures.aligned,
    ) is None);
    assert(entries_fee(none, figures.listing_fees@) == Ok::<u64, Error>(0));
    let owed = entries_fee(payload.decisions@, figures.listing_fees@);
    assert(owed is Ok && owed->Ok_0 <= figures.listing_fees@[0]->0);
}

/// A market may name a decision that was claimed, as a dimension of its own; one with
/// options may be named as a choice among them.
pub proof fn claimed_decisions_may_be_dimensions(
    view: DecisionsView,
    types: Map<DecisionId, DecisionType>,
    id: DecisionId,
)
    requires
        view.periods.dom().contains(id.period()),
        view.periods[id.period()].dom().contains(id),
        view.periods[id.period()][id].len() > 0,
        view.periods[id.period()][id][0].decision is Some,
        !types.dom().contains(id),
    ensures
        dimension_problem(view, types, DimensionSpec::Single(id)) is None,
        dimension_problem(view, types, DimensionSpec::Categorical(id)) is None <==> (
        match view.periods[id.period()][id][0].decision->0.decision_type {
            DecisionType::Category { options } => options@.len() >= 2,
            _ => false,
        }),
{
}

/// So it may one that is claimed along with it.
pub proof fn new_decisions_may_be_dimensions(
    view: DecisionsView,
    types: Map<DecisionId, DecisionType>,
    id: DecisionId,
)
    requires
        types.dom().contains(id),
    ensures
        dimension_problem(view, types, DimensionSpec::Single(id)) is None,
        dimension_problem(view, types, DimensionSpec::Categorical(id)) is None <==> (
        match types[id] {
            DecisionType::Category { options } => options@.len() >= 2,
            _ => false,
        }),
{
}

} // verus!
