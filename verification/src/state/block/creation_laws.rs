//! What holds of new markets.

use vstd::prelude::*;
use vstd::utf8::encode_utf8;

use crate::state::block::connect::{creation_applied, Applying};
use crate::state::block::creation::{
    decisions_named, funds_treasury, has_tag, is_creation, is_new_market, is_tagged,
    is_treasury_output, market_prepared, treasury_output, Making, MarketPlan,
};
use crate::state::decisions::database::DecisionsView;
use crate::state::decisions::types::Decision;
use crate::state::markets::database::{FundsKey, MarketView};
use crate::state::markets::types::{DimensionSpec, MarketId};
use crate::state::update::with_creations;
use crate::state::Error;
use crate::types::transaction::output::{BitcoinContent, Content, TxOutput};
use crate::types::transaction::{FilledTransaction, OutPoint};
use crate::types::Address;

verus! {

/// An output holds funds for the treasury of a market.
pub open spec fn endows(output: TxOutput, m: MarketId, sats: u64) -> bool {
    match output.content {
        Content::MarketFunds { market_id, amount, is_fee } => {
            &&& market_id == m.0
            &&& amount == BitcoinContent(sats)
            &&& !is_fee
        },
        _ => false,
    }
}

proof fn lemma_treasury(outputs: Seq<TxOutput>, m: MarketId, i: int, sats: u64)
    requires
        0 <= i < outputs.len(),
        endows(outputs[i], m, sats),
        forall|j: int, other: u64| 0 <= j < i ==> !#[trigger] endows(outputs[j], m, other),
    ensures
        treasury_output(outputs, m) == Some(i),
{
    assert forall|j: int| 0 <= j < i implies !funds_treasury(
        #[trigger] outputs[j],
        m,
    ) by {
        match outputs[j].content {
            Content::MarketFunds { market_id, amount, is_fee } => {
                assert(!endows(outputs[j], m, amount.0));
                assert(amount == BitcoinContent(amount.0));
            },
            _ => {},
        }
    }
    assert(is_treasury_output(outputs, m, i));
    let k = choose|k: int| is_treasury_output(outputs, m, k);
    assert(is_treasury_output(outputs, m, k));
    if k < i {
        assert(funds_treasury(outputs[k], m));
    }
    if i < k {
        assert(funds_treasury(outputs[i], m));
    }
}

/// A new market is what its creator asked for: its title and description, its
/// dimensions and the decisions that they name, and the trading fee that the
/// creator chose. Only where the creator chose none is it the usual one.
pub proof fn markets_are_made_as_asked(
    market: MarketView,
    tx: FilledTransaction,
    creator: Address,
    plan: MarketPlan,
    decisions: Seq<Decision>,
    height: u32,
)
    requires
        is_new_market(market, tx, creator, plan, decisions, height),
    ensures
        tx.transaction.data is Some,
        tx.transaction.data->0 is CreateMarket,
        ({
            let asked = tx.transaction.data->0;
            &&& asked->CreateMarket_trading_fee is Some ==> market.terms.trading_fee
                == asked->CreateMarket_trading_fee->0
            &&& asked->CreateMarket_trading_fee is None ==> market.terms.trading_fee
                == plan.default_trading_fee
            &&& market.terms.title@ == asked->CreateMarket_title@
            &&& market.terms.description@ == asked->CreateMarket_description@
            &&& market.terms.dimension_specs@ == asked->CreateMarket_dimension_specs@
            &&& market.terms.decision_ids@.len() == asked->CreateMarket_dimension_specs@.len()
            &&& forall|i: int|
                0 <= i < market.terms.decision_ids@.len() ==> (
                #[trigger] market.terms.decision_ids@[i]) == match
                    asked->CreateMarket_dimension_specs@[i] {
                    DimensionSpec::Single(id) => id,
                    DimensionSpec::Categorical(id) => id,
                }
            &&& market.terms.tx_pow_hash_selector == match
                asked->CreateMarket_tx_pow_hash_selector {
                Some(n) => n,
                None => 0u8,
            }
            &&& market.terms.tx_pow_ordering == match asked->CreateMarket_tx_pow_ordering {
                Some(n) => n,
                None => 0u8,
            }
            &&& market.terms.tx_pow_difficulty == match asked->CreateMarket_tx_pow_difficulty {
                Some(n) => n,
                None => 0u8,
            }
        }),
        market.terms.id == plan.id,
        market.terms.creator_address == creator,
        market.terms.created_at_height == height,
        market.last_updated_height == height,
{
}

/// A new market is open for trade. Nobody has shares of it, and nothing was traded
/// in it.
pub proof fn new_markets_start_empty(
    market: MarketView,
    tx: FilledTransaction,
    creator: Address,
    plan: MarketPlan,
    decisions: Seq<Decision>,
    height: u32,
)
    requires
        is_new_market(market, tx, creator, plan, decisions, height),
    ensures
        market.state is Trading,
        market.shares.len() == plan.outcome_count,
        market.volumes.len() == plan.outcome_count,
        forall|i: int| 0 <= i < plan.outcome_count ==> (#[trigger] market.shares[i]) == 0,
        forall|i: int| 0 <= i < plan.outcome_count ==> (#[trigger] market.volumes[i]) == 0,
{
}

/// A new market is as deep as what its creator puts into its treasury: what the
/// first output that funds it holds.
pub proof fn new_markets_are_endowed(
    market: MarketView,
    tx: FilledTransaction,
    creator: Address,
    plan: MarketPlan,
    decisions: Seq<Decision>,
    height: u32,
    i: int,
    sats: u64,
)
    requires
        is_new_market(market, tx, creator, plan, decisions, height),
        0 <= i < tx.transaction.outputs@.len(),
        endows(tx.transaction.outputs@[i], plan.id, sats),
        forall|j: int, other: u64|
            0 <= j < i ==> !#[trigger] endows(tx.transaction.outputs@[j], plan.id, other),
    ensures
        market.liquidity_base_sats == sats,
{
    lemma_treasury(tx.transaction.outputs@, plan.id, i, sats);
}

/// A market that nothing is put into has no depth.
pub proof fn markets_without_funds_have_no_depth(
    market: MarketView,
    tx: FilledTransaction,
    creator: Address,
    plan: MarketPlan,
    decisions: Seq<Decision>,
    height: u32,
)
    requires
        is_new_market(market, tx, creator, plan, decisions, height),
        forall|j: int, other: u64|
            0 <= j < tx.transaction.outputs@.len() ==> !#[trigger] endows(
                tx.transaction.outputs@[j],
                plan.id,
                other,
            ),
    ensures
        market.liquidity_base_sats == 0,
{
    let outputs = tx.transaction.outputs@;
    if exists|i: int| is_treasury_output(outputs, plan.id, i) {
        let i = choose|i: int| is_treasury_output(outputs, plan.id, i);
        match outputs[i].content {
            Content::MarketFunds { market_id, amount, is_fee } => {
                assert(amount == BitcoinContent(amount.0));
                assert(endows(outputs[i], plan.id, amount.0));
            },
            _ => {},
        }
    }
}

/// Each tag of a new market is a tag of one of its decisions.
pub proof fn markets_have_no_other_tags(
    market: MarketView,
    tx: FilledTransaction,
    creator: Address,
    plan: MarketPlan,
    decisions: Seq<Decision>,
    height: u32,
    i: int,
)
    requires
        is_new_market(market, tx, creator, plan, decisions, height),
        0 <= i < market.terms.tags@.len(),
    ensures
        exists|d: int, t: int|
            0 <= d < decisions.len() && 0 <= t < decisions[d].tags@.len()
                && #[trigger] decisions[d].tags@[t] == market.terms.tags@[i],
{
    assert(is_tagged(decisions, market.terms.tags@[i]));
}

/// Each tag of one of its decisions is a tag of a new market.
pub proof fn markets_have_all_tags(
    market: MarketView,
    tx: FilledTransaction,
    creator: Address,
    plan: MarketPlan,
    decisions: Seq<Decision>,
    height: u32,
    d: int,
    t: int,
)
    requires
        is_new_market(market, tx, creator, plan, decisions, height),
        0 <= d < decisions.len(),
        0 <= t < decisions[d].tags@.len(),
    ensures
        exists|i: int|
            0 <= i < market.terms.tags@.len() && encode_utf8((#[trigger] market.terms.tags@[i])@)
                == encode_utf8(decisions[d].tags@[t]@),
{
    assert(has_tag(market.terms.tags@, decisions[d].tags@[t]));
}

/// A market is made by the owner of the first coin that its transaction spends, of
/// decisions that have been claimed. The update gains this one market, and where
/// its treasury is, is noted.
pub proof fn making_a_market_adds_it(
    before: Making,
    after: Making,
    tx: FilledTransaction,
    height: u32,
    aligned: Seq<bool>,
    plan: MarketPlan,
)
    requires
        is_creation(before, after, tx, height, aligned, Some(plan), Ok(())),
    ensures
        tx.spent_utxos@.len() > 0,
        after.update.creations.len() == before.update.creations.len() + 1,
        after.update.creations.drop_last() == before.update.creations,
        after.update.updates == before.update.updates,
        after.update.changes == before.update.changes,
        after.update.votes == before.update.votes,
        after.update.buys == before.update.buys,
        after.update.sells == before.update.sells,
        after.update.input_changes == before.update.input_changes,
        after.markets.markets == before.markets.markets,
        after.markets.accounts == before.markets.accounts,
        ({
            let market = after.update.creations.last();
            &&& market_prepared(before.decisions, tx, height, aligned) is Ok
            &&& is_new_market(
                market,
                tx,
                tx.spent_utxos@[0].address,
                plan,
                market_prepared(before.decisions, tx, height, aligned)->Ok_0.2,
                height,
            )
            &&& decisions_named(
                after.decisions,
                tx.transaction.data->0->CreateMarket_dimension_specs@,
            ) is Ok
        }),
        forall|i: int, sats: u64|
            0 <= i < tx.transaction.outputs@.len() && #[trigger] endows(
                tx.transaction.outputs@[i],
                plan.id,
                sats,
            ) && (forall|j: int, other: u64|
                0 <= j < i ==> !#[trigger] endows(tx.transaction.outputs@[j], plan.id, other)) ==> {
                let key = FundsKey { market_id: plan.id, is_fee: false };
                &&& after.markets.funds.dom().contains(key)
                &&& after.markets.funds[key] == (OutPoint::Regular {
                    txid: tx.transaction.id(),
                    vout: i as u32,
                })
            },
{
    assert(after.update.creations.drop_last() =~= before.update.creations);
    assert forall|i: int, sats: u64|
        0 <= i < tx.transaction.outputs@.len() && #[trigger] endows(
            tx.transaction.outputs@[i],
            plan.id,
            sats,
        ) && (forall|j: int, other: u64|
            0 <= j < i ==> !#[trigger] endows(
                tx.transaction.outputs@[j],
                plan.id,
                other,
            )) implies {
        let key = FundsKey { market_id: plan.id, is_fee: false };
        &&& after.markets.funds.dom().contains(key)
        &&& after.markets.funds[key] == (OutPoint::Regular {
            txid: tx.transaction.id(),
            vout: i as u32,
        })
    } by {
        lemma_treasury(tx.transaction.outputs@, plan.id, i, sats);
    }
}

/// The same of a market that is made while a block is connected.
pub proof fn connected_markets_are_made_as_asked(
    before: Applying,
    after: Applying,
    tx: FilledTransaction,
    height: u32,
    aligned: Seq<bool>,
    plan: MarketPlan,
)
    requires
        creation_applied(before, after, tx, height, aligned, Some(plan), Ok(false)),
    ensures
        tx.spent_utxos@.len() > 0,
        after.reputation == before.reputation,
        after.transfers == before.transfers,
        is_creation(
            Making {
                decisions: before.decisions,
                markets: before.markets,
                update: before.update,
            },
            Making { decisions: after.decisions, markets: after.markets, update: after.update },
            tx,
            height,
            aligned,
            Some(plan),
            Ok(()),
        ),
{
}

/// Each dimension of a market is a decision that has been claimed.
pub proof fn dimensions_are_claimed_decisions(
    view: DecisionsView,
    specs: Seq<DimensionSpec>,
    named: Seq<Decision>,
    i: int,
)
    requires
        decisions_named(view, specs) == Ok::<Seq<Decision>, Error>(named),
        0 <= i < specs.len(),
    ensures
        named.len() == specs.len(),
        ({
            let id = match specs[i] {
                DimensionSpec::Single(id) => id,
                DimensionSpec::Categorical(id) => id,
            };
            &&& view.periods.dom().contains(id.period())
            &&& view.periods[id.period()].dom().contains(id)
            &&& view.periods[id.period()][id][0].decision == Some(named[i])
        }),
    decreases specs.len(),
{
    let front = specs.drop_last();
    let before = decisions_named(view, front)->Ok_0;
    if front.len() > 0 {
        dimensions_are_claimed_decisions(view, front, before, if i < front.len() {
            i
        } else {
            0
        });
    }
    assert(named == before.push(named.last()));
    assert(before.len() == front.len());
}

proof fn lemma_created(
    markets: Map<MarketId, MarketView>,
    creations: Seq<MarketView>,
    m: MarketId,
)
    ensures
        (forall|i: int| 0 <= i < creations.len() ==> (#[trigger] creations[i]).terms.id != m) ==> {
            &&& with_creations(markets, creations).dom().contains(m) <==> markets.dom().contains(m)
            &&& with_creations(markets, creations)[m] == markets[m]
        },
        forall|i: int|
            0 <= i < creations.len() && (#[trigger] creations[i]).terms.id == m && (forall|j: int|
                0 <= j < creations.len() && j != i ==> (#[trigger] creations[j]).terms.id != m)
                ==> {
                &&& with_creations(markets, creations).dom().contains(m)
                &&& with_creations(markets, creations)[m] == creations[i]
            },
    decreases creations.len(),
{
    if creations.len() > 0 {
        let front = creations.drop_last();
        let last = creations.last();
        let next = markets.insert(last.terms.id, last);
        lemma_created(next, front, m);
        assert(creations[creations.len() - 1] == last);
        if forall|i: int| 0 <= i < creations.len() ==> (#[trigger] creations[i]).terms.id != m {
            assert forall|i: int| 0 <= i < front.len() implies (#[trigger] front[i]).terms.id
                != m by {
                assert(front[i] == creations[i]);
            }
        }
        assert forall|i: int|
            0 <= i < creations.len() && (#[trigger] creations[i]).terms.id == m && (forall|j: int|
                0 <= j < creations.len() && j != i ==> (#[trigger] creations[j]).terms.id
                    != m) implies {
            &&& with_creations(markets, creations).dom().contains(m)
            &&& with_creations(markets, creations)[m] == creations[i]
        } by {
            assert forall|j: int| 0 <= j < front.len() && j != i implies (
            #[trigger] front[j]).terms.id != m by {
                assert(front[j] == creations[j]);
            }
            if i < front.len() {
                assert(front[i] == creations[i]);
            } else {
                assert forall|j: int| 0 <= j < front.len() implies (
                #[trigger] front[j]).terms.id != m by {}
            }
        }
    }
}

/// Markets that a block makes are there afterwards as they were made, each under
/// its own id, and the others stay.
pub proof fn made_markets_are_stored(
    markets: Map<MarketId, MarketView>,
    creations: Seq<MarketView>,
    m: MarketId,
)
    ensures
        (forall|i: int| 0 <= i < creations.len() ==> (#[trigger] creations[i]).terms.id != m) ==> {
            &&& with_creations(markets, creations).dom().contains(m) <==> markets.dom().contains(m)
            &&& with_creations(markets, creations)[m] == markets[m]
        },
        forall|i: int|
            0 <= i < creations.len() && (#[trigger] creations[i]).terms.id == m && (forall|j: int|
                0 <= j < creations.len() && j != i ==> (#[trigger] creations[j]).terms.id != m)
                ==> {
                &&& with_creations(markets, creations).dom().contains(m)
                &&& with_creations(markets, creations)[m] == creations[i]
            },
{
    lemma_created(markets, creations, m);
}

} // verus!
