//! What holds of the changes of a block before they are written.

use vstd::prelude::*;

use crate::state::block::trades::share_added;
use crate::state::block::trades::shares_before;
use crate::state::markets::database::{MarketView, MarketsView};
use crate::state::markets::{MarketError, MarketId};
use crate::state::update::{
    creates, creation_problem, first_absent, first_created, first_twice, update_problem,
    MarketStateUpdate, StateUpdateView,
};
use crate::state::Error;
use crate::types::transaction::FilledTransaction;
use crate::validation::market::{first_negative, maker_of, shares_problem};

verus! {

proof fn lemma_none_twice(creations: Seq<MarketView>, i: int)
    requires
        0 <= i,
    ensures
        first_twice(creations, i) is None <==> forall|j: int, k: int|
            0 <= j < k < creations.len() && i <= k ==> (#[trigger] creations[j]).terms.id != (
            #[trigger] creations[k]).terms.id,
    decreases creations.len() - i,
{
    if i < creations.len() {
        let earlier = creations.subrange(0, i);
        lemma_none_twice(creations, i + 1);
        if creates(earlier, creations[i].terms.id) {
            let j = choose|j: int|
                0 <= j < earlier.len() && (#[trigger] earlier[j]).terms.id == creations[i].terms.id;
            assert(creations[j] == earlier[j]);
        } else {
            assert forall|j: int, k: int|
                0 <= j < k < creations.len() && i <= k && first_twice(creations, i) is None implies (
            #[trigger] creations[j]).terms.id != (#[trigger] creations[k]).terms.id by {
                if k == i {
                    assert(earlier[j] == creations[j]);
                }
            }
            assert(first_twice(creations, i) == first_twice(creations, i + 1));
        }
    }
}

proof fn lemma_none_created(creations: Seq<MarketView>, updates: Seq<MarketStateUpdate>, i: int)
    requires
        0 <= i,
    ensures
        first_created(creations, updates, i) is None <==> forall|j: int, k: int|
            0 <= j < creations.len() && i <= k < updates.len() ==> (
            #[trigger] creations[j]).terms.id != (#[trigger] updates[k]).market_id,
    decreases updates.len() - i,
{
    if i < updates.len() {
        lemma_none_created(creations, updates, i + 1);
        if creates(creations, updates[i].market_id) {
            let j = choose|j: int|
                0 <= j < creations.len() && (#[trigger] creations[j]).terms.id
                    == updates[i].market_id;
            assert(creations[j].terms.id == updates[i].market_id);
        } else {
            assert(first_created(creations, updates, i) == first_created(
                creations,
                updates,
                i + 1,
            ));
        }
    }
}

proof fn lemma_none_absent(
    markets: Map<MarketId, MarketView>,
    updates: Seq<MarketStateUpdate>,
    i: int,
)
    requires
        0 <= i,
    ensures
        first_absent(markets, updates, i) is None <==> forall|k: int|
            i <= k < updates.len() ==> markets.dom().contains((#[trigger] updates[k]).market_id),
    decreases updates.len() - i,
{
    if i < updates.len() {
        lemma_none_absent(markets, updates, i + 1);
    }
}

proof fn lemma_none_negative(shares: Seq<i64>, i: int)
    requires
        0 <= i,
    ensures
        first_negative(shares, i) is None <==> forall|k: int|
            i <= k < shares.len() ==> #[trigger] shares[k] >= 0,
    decreases shares.len() - i,
{
    if i < shares.len() {
        lemma_none_negative(shares, i + 1);
    }
}

/// A market has two outcomes at least, and no outcome has fewer shares than none.
pub proof fn markets_have_outcomes(shares: Seq<i64>)
    ensures
        shares_problem(shares) is None <==> {
            &&& shares.len() >= 2
            &&& forall|k: int| 0 <= k < shares.len() ==> #[trigger] shares[k] >= 0
        },
{
    lemma_none_negative(shares, 0);
}

proof fn lemma_creations(markets: Map<MarketId, MarketView>, creations: Seq<MarketView>)
    ensures
        creation_problem(markets, creations) is None <==> forall|k: int|
            0 <= k < creations.len() ==> !markets.dom().contains((#[trigger] creations[k]).terms.id)
                && shares_problem(creations[k].shares) is None,
    decreases creations.len(),
{
    if creations.len() > 0 {
        let front = creations.drop_last();
        lemma_creations(markets, front);
        assert(creations[creations.len() - 1] == creations.last());
        if creation_problem(markets, creations) is None {
            assert forall|k: int| 0 <= k < creations.len() implies !markets.dom().contains(
                (#[trigger] creations[k]).terms.id,
            ) && shares_problem(creations[k].shares) is None by {
                if k < front.len() {
                    assert(front[k] == creations[k]);
                }
            }
        }
        if forall|k: int|
            0 <= k < creations.len() ==> !markets.dom().contains((#[trigger] creations[k]).terms.id)
                && shares_problem(creations[k].shares) is None {
            assert forall|k: int| 0 <= k < front.len() implies !markets.dom().contains(
                (#[trigger] front[k]).terms.id,
            ) && shares_problem(front[k].shares) is None by {
                assert(front[k] == creations[k]);
            }
        }
    }
}

/// The changes of a block can be written where each new market is new and made once,
/// and each market that changes is there and is not made in the same block.
pub proof fn sound_changes_can_be_written(
    markets: Map<MarketId, MarketView>,
    update: StateUpdateView,
)
    ensures
        update_problem(markets, update) is None <==> {
            &&& forall|j: int, k: int|
                0 <= j < k < update.creations.len() ==> (
                #[trigger] update.creations[j]).terms.id != (
                #[trigger] update.creations[k]).terms.id
            &&& forall|j: int, k: int|
                0 <= j < update.creations.len() && 0 <= k < update.updates.len() ==> (
                #[trigger] update.creations[j]).terms.id != (
                #[trigger] update.updates[k]).market_id
            &&& forall|k: int|
                0 <= k < update.updates.len() ==> markets.dom().contains(
                    (#[trigger] update.updates[k]).market_id,
                )
            &&& forall|k: int|
                0 <= k < update.creations.len() ==> !markets.dom().contains(
                    (#[trigger] update.creations[k]).terms.id,
                ) && shares_problem(update.creations[k].shares) is None
        },
{
    lemma_none_twice(update.creations, 0);
    lemma_none_created(update.creations, update.updates, 0);
    lemma_none_absent(markets, update.updates, 0);
    lemma_creations(markets, update.creations);
}

/// The maker of a market is who owned the first coin that its transaction spends.
pub proof fn makers_spend_the_first_coin(tx: FilledTransaction)
    ensures
        maker_of(tx) is Ok <==> tx.transaction.inputs@.len() > 0 && tx.spent_utxos@.len() > 0,
        maker_of(tx) is Ok ==> maker_of(tx)->Ok_0 == tx.spent_utxos@[0].address,
{
}

/// Adding to the shares of an outcome changes that outcome by as much, and no other.
pub proof fn shares_are_added_to_one_outcome(
    shares: Seq<i64>,
    outcome: usize,
    delta: i64,
    k: int,
)
    ensures
        share_added(shares, outcome, delta) is Ok <==> outcome < shares.len() && i64::MIN
            <= shares[outcome as int] + delta <= i64::MAX,
        share_added(shares, outcome, delta) is Ok && 0 <= k < shares.len() ==> share_added(
            shares,
            outcome,
            delta,
        )->Ok_0.len() == shares.len() && share_added(shares, outcome, delta)->Ok_0[k] == shares[k]
            + if k == outcome {
            delta as int
        } else {
            0
        },
{
}

/// Before a trade, a market had the shares that it has after it without those that the
/// trade moved.
pub proof fn trades_are_taken_out_of_the_shares(
    markets: MarketsView,
    tx: FilledTransaction,
    before: Seq<i64>,
    k: int,
)
    requires
        shares_before(markets, tx) == Ok::<Seq<i64>, Error>(before),
        0 <= k < before.len(),
    ensures
        tx.transaction.data is Some,
        tx.transaction.data->0 is Trade,
        ({
            let trade = tx.transaction.data->0;
            let shares = markets.markets[trade->Trade_market_id].shares;
            &&& before.len() == shares.len()
            &&& shares[k] == before[k] + if k == trade->Trade_outcome_index {
                trade->Trade_shares as int
            } else {
                0
            }
        }),
{
}

/// What is added to the volume of an outcome can be taken out again, and the volumes of
/// the other outcomes stay.
pub proof fn volumes_grow_by_what_is_traded(
    market: MarketView,
    outcome: int,
    sats: u64,
    after: MarketView,
    k: int,
)
    requires
        market.volume_added(outcome, sats) == Ok::<MarketView, MarketError>(after),
        0 <= outcome,
        0 <= k < market.volumes.len(),
    ensures
        after.volumes.len() == market.volumes.len(),
        after.volumes[k] == market.volumes[k] + if k == outcome {
            sats as int
        } else {
            0
        },
        after.shares == market.shares,
        after.terms == market.terms,
        after.state == market.state,
        after.volume_removed(outcome, sats) == Ok::<MarketView, MarketError>(market),
{
    let back = after.volume_removed(outcome, sats)->Ok_0;
    assert(back.volumes =~= market.volumes);
}

/// A volume grows as far as it can be counted.
pub proof fn volumes_have_a_limit(market: MarketView, outcome: int, sats: u64)
    requires
        0 <= outcome,
    ensures
        market.volume_added(outcome, sats) is Ok <==> outcome < market.volumes.len()
            && market.volumes[outcome] + sats <= u64::MAX,
        market.volume_removed(outcome, sats) is Ok <==> outcome < market.volumes.len()
            && market.volumes[outcome] >= sats,
{
}

} // verus!
