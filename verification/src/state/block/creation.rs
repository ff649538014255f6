//! Transactions that create markets.

use vstd::prelude::*;
use vstd::utf8::encode_utf8;

use crate::bytes::{
    boxed, boxed_copy, bytes_before, bytes_before_total, bytes_before_transitive, is_before,
    same_bytes,
};
use crate::state::block::claims::{
    claim_entries, creator_of, extract_creator_address, lemma_payloads_prefix, payloads_claimed,
    payloads_unclaimed, unclaim_entries, Claimer,
};
use crate::state::decisions::database::{entries_of, Dbs, DecisionsView};
use crate::state::decisions::types::{Decision, DecisionId};
use crate::state::markets::database::{funds, MarketView, MarketsDatabase, MarketsView};
use crate::state::markets::types::{DimensionSpec, MarketId, MarketState};
use crate::state::markets::{Market, MarketTerms};
use crate::state::update::{StateUpdate, StateUpdateView};
use crate::state::{Error, Reason};
use crate::types::encoding::Encode;
use crate::types::transaction::output::{Content, TxOutput};
use crate::types::transaction::{
    ClaimDecisionPayload, FilledTransaction, OutPoint, TransactionData,
};
use crate::types::{Address, Duplicate, Real, Txid};

verus! {

/// A tag as bytes.
pub open spec fn tag_bytes(tag: String) -> Seq<u8> {
    encode_utf8(tag@)
}

/// The list has this tag.
pub open spec fn has_tag(list: Seq<String>, tag: String) -> bool {
    exists|i: int| 0 <= i < list.len() && tag_bytes(#[trigger] list[i]) == tag_bytes(tag)
}

/// The decisions have this tag.
pub open spec fn is_tagged(decisions: Seq<Decision>, tag: String) -> bool {
    exists|d: int, t: int|
        0 <= d < decisions.len() && 0 <= t < decisions[d].tags@.len()
            && #[trigger] decisions[d].tags@[t] == tag
}

/// The tags stand in strictly ascending byte order.
pub open spec fn tags_ascend(list: Seq<String>) -> bool {
    forall|i: int, j: int|
        0 <= i < j < list.len() ==> #[trigger] bytes_before(tag_bytes(list[i]), tag_bytes(list[j]))
}

/// The list has each tag of the decisions once, in ascending order.
pub open spec fn is_tag_list(list: Seq<String>, decisions: Seq<Decision>) -> bool {
    &&& tags_ascend(list)
    &&& forall|i: int| 0 <= i < list.len() ==> is_tagged(decisions, #[trigger] list[i])
    &&& forall|d: int, t: int|
        0 <= d < decisions.len() && 0 <= t < decisions[d].tags@.len() ==> has_tag(
            list,
            #[trigger] decisions[d].tags@[t],
        )
}

fn insert_tag(list: &mut Vec<String>, tag: &String)
    requires
        tags_ascend(old(list)@),
    ensures
        tags_ascend(final(list)@),
        has_tag(final(list)@, *tag),
        forall|i: int|
            0 <= i < final(list)@.len() ==> #[trigger] final(list)@[i] == *tag || old(
                list,
            )@.contains(final(list)@[i]),
        forall|other: String| has_tag(old(list)@, other) ==> #[trigger] has_tag(final(list)@, other),
{
    let mut at: usize = 0;
    while at < list.len() && is_before(list[at].as_str().as_bytes(), tag.as_str().as_bytes())
        invariant
            at <= list@.len(),
            list@ == old(list)@,
            forall|i: int| 0 <= i < at ==> bytes_before(tag_bytes(#[trigger] list@[i]), tag_bytes(*tag)),
        decreases list@.len() - at,
    {
        at += 1;
    }
    let ghost before = list@;
    if at < list.len() && !is_before(tag.as_str().as_bytes(), list[at].as_str().as_bytes()) {
        proof {
            bytes_before_total(tag_bytes(*tag), tag_bytes(list@[at as int]));
            assert(tag_bytes(list@[at as int]) == tag_bytes(*tag));
            assert forall|i: int| 0 <= i < list@.len() implies #[trigger] list@[i] == *tag || old(
                list,
            )@.contains(list@[i]) by {
                assert(old(list)@[i] == list@[i]);
            }
        }
        return;
    }
    list.insert(at, tag.duplicate());
    proof {
        let after = list@;
        assert(after == before.insert(at as int, *tag));
        assert(after[at as int] == *tag);
        assert forall|i: int, j: int| 0 <= i < j < after.len() implies #[trigger] bytes_before(
            tag_bytes(after[i]),
            tag_bytes(after[j]),
        ) by {
            if j < at {
                assert(bytes_before(tag_bytes(before[i]), tag_bytes(before[j])));
            } else if j == at {
                assert(after[i] == before[i]);
            } else if i == at {
                assert(bytes_before(tag_bytes(*tag), tag_bytes(before[at as int])));
                if j > at + 1 {
                    assert(bytes_before(tag_bytes(before[at as int]), tag_bytes(before[j - 1])));
                    bytes_before_transitive(
                        tag_bytes(*tag),
                        tag_bytes(before[at as int]),
                        tag_bytes(before[j - 1]),
                    );
                }
            } else if i < at {
                assert(bytes_before(tag_bytes(before[i]), tag_bytes(before[j - 1])));
            } else {
                assert(bytes_before(tag_bytes(before[i - 1]), tag_bytes(before[j - 1])));
            }
        }
        assert forall|i: int| 0 <= i < after.len() implies #[trigger] after[i] == *tag
            || before.contains(after[i]) by {
            if i < at {
                assert(before[i] == after[i]);
            } else if i > at {
                assert(before[i - 1] == after[i]);
            }
        }
        assert forall|other: String| has_tag(before, other) implies #[trigger] has_tag(
            after,
            other,
        ) by {
            let i = choose|i: int|
                0 <= i < before.len() && tag_bytes(#[trigger] before[i]) == tag_bytes(other);
            if i < at {
                assert(after[i] == before[i]);
            } else {
                assert(after[i + 1] == before[i]);
            }
        }
    }
}

/// The tags of a market: each tag of its decisions once, in ascending order.
pub fn compute_market_tags(decisions: &Vec<Decision>) -> (r: Vec<String>)
    ensures
        is_tag_list(r@, decisions@),
{
    let mut list: Vec<String> = Vec::new();
    let mut d: usize = 0;
    while d < decisions.len()
        invariant
            d <= decisions@.len(),
            tags_ascend(list@),
            forall|i: int| 0 <= i < list@.len() ==> is_tagged(decisions@, #[trigger] list@[i]),
            forall|k: int, t: int|
                0 <= k < d && 0 <= t < decisions@[k].tags@.len() ==> has_tag(
                    list@,
                    #[trigger] decisions@[k].tags@[t],
                ),
        decreases decisions@.len() - d,
    {
        let tags = &decisions[d].tags;
        let mut t: usize = 0;
        while t < tags.len()
            invariant
                d < decisions@.len(),
                t <= tags@.len(),
                *tags == decisions@[d as int].tags,
                tags_ascend(list@),
                forall|i: int| 0 <= i < list@.len() ==> is_tagged(decisions@, #[trigger] list@[i]),
                forall|k: int, u: int|
                    0 <= k < d && 0 <= u < decisions@[k].tags@.len() ==> has_tag(
                        list@,
                        #[trigger] decisions@[k].tags@[u],
                    ),
                forall|u: int| 0 <= u < t ==> has_tag(list@, #[trigger] tags@[u]),
            decreases tags@.len() - t,
        {
            let ghost before = list@;
            insert_tag(&mut list, &tags[t]);
            proof {
                assert(decisions@[d as int].tags@[t as int] == tags@[t as int]);
                assert forall|i: int| 0 <= i < list@.len() implies is_tagged(
                    decisions@,
                    #[trigger] list@[i],
                ) by {
                    if list@[i] != tags@[t as int] {
                        let j = before.index_of(list@[i]);
                        assert(is_tagged(decisions@, before[j]));
                    }
                }
            }
            t += 1;
        }
        assert forall|k: int, u: int| 0 <= k < d + 1 && 0 <= u < decisions@[k].tags@.len() implies
            has_tag(list@, #[trigger] decisions@[k].tags@[u]) by {
            if k == d {
                assert(tags@[u] == decisions@[k].tags@[u]);
            }
        }
        d += 1;
    }
    list
}

/// The decisions that the dimensions of a market name.
pub open spec fn decisions_named(view: DecisionsView, specs: Seq<DimensionSpec>) -> Result<
    Seq<Decision>,
    Error,
>
    decreases specs.len(),
{
    if specs.len() == 0 {
        Ok(Seq::empty())
    } else {
        match decisions_named(view, specs.drop_last()) {
            Err(e) => Err(e),
            Ok(list) => {
                let id = specs.last().id();
                let entries = entries_of(view, id.period());
                if !entries.dom().contains(id) {
                    Err(Error::InvalidDecisionId { reason: Reason::DecisionDoesNotExist(id) })
                } else {
                    match entries[id][0].decision {
                        None => Err(
                            Error::InvalidDecisionId { reason: Reason::DecisionIsEmpty(id) },
                        ),
                        Some(decision) => Ok(list.push(decision)),
                    }
                }
            },
        }
    }
}

proof fn lemma_named_prefix(view: DecisionsView, specs: Seq<DimensionSpec>, n: int)
    requires
        0 <= n <= specs.len(),
        decisions_named(view, specs.subrange(0, n)) is Err,
    ensures
        decisions_named(view, specs) == decisions_named(view, specs.subrange(0, n)),
    decreases specs.len() - n,
{
    if n == specs.len() {
        assert(specs.subrange(0, n) =~= specs);
    } else {
        assert(specs.subrange(0, n + 1).drop_last() =~= specs.subrange(0, n));
        lemma_named_prefix(view, specs, n + 1);
    }
}

fn name_decisions(decisions: &Dbs, specs: &Box<[DimensionSpec]>) -> (r: Result<
    (Vec<Decision>, Vec<DecisionId>),
    Error,
>)
    ensures
        match r {
            Ok((list, ids)) => {
                &&& decisions_named(decisions@, specs@) == Ok::<Seq<Decision>, Error>(list@)
                &&& ids@ == specs@.map_values(|d: DimensionSpec| d.id())
            },
            Err(e) => decisions_named(decisions@, specs@) == Err::<Seq<Decision>, Error>(e),
        },
{
    let mut list: Vec<Decision> = Vec::new();
    let mut ids: Vec<DecisionId> = Vec::new();
    let mut i: usize = 0;
    assert(specs@.subrange(0, 0) =~= Seq::empty());
    while i < specs.len()
        invariant
            i <= specs@.len(),
            decisions_named(decisions@, specs@.subrange(0, i as int)) == Ok::<Seq<Decision>, Error>(
                list@,
            ),
            ids@.len() == i,
            forall|j: int| 0 <= j < i ==> #[trigger] ids@[j] == specs@[j].id(),
        decreases specs@.len() - i,
    {
        let id = specs[i].decision_id();
        proof {
            assert(specs@.subrange(0, i + 1).drop_last() =~= specs@.subrange(0, i as int));
        }
        match decisions.get_decision_entry(id) {
            None => {
                proof {
                    lemma_named_prefix(decisions@, specs@, i + 1);
                }
                return Err(Error::InvalidDecisionId { reason: Reason::DecisionDoesNotExist(id) });
            },
            Some(entry) => match &entry.decision {
                None => {
                    proof {
                        lemma_named_prefix(decisions@, specs@, i + 1);
                    }
                    return Err(Error::InvalidDecisionId { reason: Reason::DecisionIsEmpty(id) });
                },
                Some(decision) => {
                    list.push(decision.duplicate());
                    ids.push(id);
                },
            },
        }
        i += 1;
    }
    assert(specs@.subrange(0, i as int) =~= specs@);
    assert(ids@ =~= specs@.map_values(|d: DimensionSpec| d.id()));
    Ok((list, ids))
}

/// What is worked out of a new market elsewhere: its id, how many outcomes it
/// has, and the fee it takes where the transaction names none.
#[derive(Clone, Copy, Debug)]
pub struct MarketPlan {
    pub id: MarketId,
    pub outcome_count: usize,
    pub default_trading_fee: Real,
}

/// An output that funds the treasury of a market.
pub open spec fn funds_treasury(output: TxOutput, m: MarketId) -> bool {
    match output.content {
        Content::MarketFunds { market_id, amount, is_fee } => market_id == m.0 && !is_fee,
        _ => false,
    }
}

/// Output `i` is the first that funds the treasury.
pub open spec fn is_treasury_output(outputs: Seq<TxOutput>, m: MarketId, i: int) -> bool {
    &&& 0 <= i < outputs.len()
    &&& funds_treasury(outputs[i], m)
    &&& forall|j: int| 0 <= j < i ==> !funds_treasury(#[trigger] outputs[j], m)
}

/// The first output that funds the treasury of a market.
pub open spec fn treasury_output(outputs: Seq<TxOutput>, m: MarketId) -> Option<int> {
    if exists|i: int| is_treasury_output(outputs, m, i) {
        Some(choose|i: int| is_treasury_output(outputs, m, i))
    } else {
        None
    }
}

pub open spec fn treasury_amount(output: TxOutput) -> u64 {
    match output.content {
        Content::MarketFunds { market_id, amount, is_fee } => amount.0,
        _ => 0,
    }
}

/// Finds the first output that funds the treasury of a market, and what it
/// holds.
pub fn find_treasury_output(outputs: &Box<[TxOutput]>, m: &MarketId) -> (r: Option<(usize, u64)>)
    ensures
        match r {
            Some((i, sats)) => {
                &&& treasury_output(outputs@, *m) == Some(i as int)
                &&& 0 <= i < outputs@.len()
                &&& sats == treasury_amount(outputs@[i as int])
            },
            None => treasury_output(outputs@, *m) is None,
        },
{
    let mut i: usize = 0;
    while i < outputs.len()
        invariant
            i <= outputs@.len(),
            forall|j: int| 0 <= j < i ==> !funds_treasury(#[trigger] outputs@[j], *m),
        decreases outputs@.len() - i,
    {
        match &outputs[i].content {
            Content::MarketFunds { market_id, amount, is_fee } => {
                if !*is_fee && same_bytes(market_id, &m.0) {
                    proof {
                        assert(is_treasury_output(outputs@, *m, i as int));
                        let k = treasury_output(outputs@, *m)->Some_0;
                        assert(is_treasury_output(outputs@, *m, k));
                        if k < i {
                            assert(funds_treasury(outputs@[k], *m));
                        } else if i < k {
                            assert(!funds_treasury(outputs@[i as int], *m));
                        }
                    }
                    return Some((i, amount.0));
                }
            },
            _ => {},
        }
        i += 1;
    }
    proof {
        if exists|k: int| is_treasury_output(outputs@, *m, k) {
            let k = choose|k: int| is_treasury_output(outputs@, *m, k);
            assert(funds_treasury(outputs@[k], *m));
        }
    }
    None
}

/// The market that a transaction makes.
pub open spec fn is_new_market(
    market: MarketView,
    tx: FilledTransaction,
    creator: Address,
    plan: MarketPlan,
    decisions: Seq<Decision>,
    height: u32,
) -> bool {
    match tx.transaction.data {
        Some(
            TransactionData::CreateMarket {
                title,
                description,
                dimension_specs,
                new_claims,
                trading_fee,
                tx_pow_hash_selector,
                tx_pow_ordering,
                tx_pow_difficulty,
            },
        ) => {
            let terms = market.terms;
            &&& terms.id == plan.id
            &&& terms.creator_address == creator
            &&& terms.title == title
            &&& terms.description == description
            &&& is_tag_list(terms.tags@, decisions)
            &&& terms.dimension_specs@ == dimension_specs@
            &&& terms.decision_ids@ == dimension_specs@.map_values(|d: DimensionSpec| d.id())
            &&& terms.trading_fee == (match trading_fee {
                Some(fee) => fee,
                None => plan.default_trading_fee,
            })
            &&& terms.tx_pow_hash_selector == or_zero(tx_pow_hash_selector)
            &&& terms.tx_pow_ordering == or_zero(tx_pow_ordering)
            &&& terms.tx_pow_difficulty == or_zero(tx_pow_difficulty)
            &&& terms.created_at_height == height
            &&& market.state is Trading
            &&& market.shares == Seq::new(plan.outcome_count as nat, |i: int| 0i64)
            &&& market.volumes == Seq::new(plan.outcome_count as nat, |i: int| 0u64)
            &&& market.liquidity_base_sats == (match treasury_output(
                tx.transaction.outputs@,
                plan.id,
            ) {
                Some(i) => treasury_amount(tx.transaction.outputs@[i]),
                None => 0,
            })
            &&& market.last_updated_height == height
        },
        _ => false,
    }
}

pub open spec fn or_zero(n: Option<u8>) -> u8 {
    match n {
        Some(n) => n,
        None => 0,
    }
}

fn unwrap_or_zero(n: Option<u8>) -> (r: u8)
    ensures
        r == or_zero(n),
{
    match n {
        Some(n) => n,
        None => 0,
    }
}

/// The decisions after a market is made, with those that its dimensions name.
pub open spec fn market_prepared(
    view: DecisionsView,
    tx: FilledTransaction,
    height: u32,
    aligned: Seq<bool>,
) -> Result<(DecisionsView, Address, Seq<Decision>), Error> {
    match tx.transaction.data {
        Some(
            TransactionData::CreateMarket {
                title,
                description,
                dimension_specs,
                new_claims,
                trading_fee,
                tx_pow_hash_selector,
                tx_pow_ordering,
                tx_pow_difficulty,
            },
        ) => match creator_of(tx) {
            Err(e) => Err(e),
            Ok(maker) => match payloads_claimed(
                view,
                new_claims@,
                Claimer { maker, txid: tx.transaction.id(), height },
                aligned,
            ) {
                Err(e) => Err(e),
                Ok(next) => match decisions_named(next, dimension_specs@) {
                    Err(e) => Err(e),
                    Ok(named) => Ok((next, maker, named)),
                },
            },
        },
        _ => Err(
            Error::InvalidTransaction { reason: Reason::Text("Not a market creation transaction") },
        ),
    }
}

fn claim_payloads(
    decisions: &mut Dbs,
    payloads: &Box<[ClaimDecisionPayload]>,
    maker: Address,
    txid: Txid,
    height: u32,
    aligned: &Vec<bool>,
) -> (r: Result<(), Error>)
    ensures
        match r {
            Ok(()) => payloads_claimed(
                old(decisions)@,
                payloads@,
                Claimer { maker, txid, height },
                aligned@,
            ) == Ok::<DecisionsView, Error>(final(decisions)@),
            Err(e) => payloads_claimed(
                old(decisions)@,
                payloads@,
                Claimer { maker, txid, height },
                aligned@,
            ) == Err::<DecisionsView, Error>(e),
        },
{
    let ghost by = Claimer { maker, txid, height };
    let ghost start = decisions@;
    let mut i: usize = 0;
    assert(payloads@.subrange(0, 0) =~= Seq::empty());
    while i < payloads.len()
        invariant
            i <= payloads@.len(),
            start == old(decisions)@,
            by == (Claimer { maker, txid, height }),
            payloads_claimed(start, payloads@.subrange(0, i as int), by, aligned@) == Ok::<
                DecisionsView,
                Error,
            >(decisions@),
        decreases payloads@.len() - i,
    {
        let payload = &payloads[i];
        proof {
            assert(payloads@.subrange(0, i + 1).drop_last() =~= payloads@.subrange(0, i as int));
            assert(payloads@.subrange(0, i + 1).last() == *payload);
        }
        let is_aligned = i < aligned.len() && aligned[i];
        match claim_entries(
            decisions,
            &payload.decisions,
            &payload.decision_type,
            maker,
            txid,
            height,
            is_aligned,
        ) {
            Err(e) => {
                proof {
                    lemma_payloads_prefix(start, payloads@, by, aligned@, i + 1);
                }
                return Err(e);
            },
            Ok(()) => {},
        }
        i += 1;
    }
    assert(payloads@.subrange(0, i as int) =~= payloads@);
    Ok(())
}

fn zeros(n: usize) -> (r: (Vec<i64>, Vec<u64>))
    ensures
        r.0@ == Seq::new(n as nat, |i: int| 0i64),
        r.1@ == Seq::new(n as nat, |i: int| 0u64),
{
    let mut shares: Vec<i64> = Vec::new();
    let mut volumes: Vec<u64> = Vec::new();
    let mut i: usize = 0;
    while i < n
        invariant
            i <= n,
            shares@ == Seq::new(i as nat, |k: int| 0i64),
            volumes@ == Seq::new(i as nat, |k: int| 0u64),
        decreases n - i,
    {
        shares.push(0);
        volumes.push(0);
        i += 1;
        assert(shares@ =~= Seq::new(i as nat, |k: int| 0i64));
        assert(volumes@ =~= Seq::new(i as nat, |k: int| 0u64));
    }
    (shares, volumes)
}

/// What making a market changes at once, and the update that it is added to.
pub struct Making {
    pub decisions: DecisionsView,
    pub markets: MarketsView,
    pub update: StateUpdateView,
}

/// A market is made of a transaction: `before` becomes `after`, or it cannot be
/// made.
pub open spec fn is_creation(
    before: Making,
    after: Making,
    tx: FilledTransaction,
    height: u32,
    aligned: Seq<bool>,
    plan: Option<MarketPlan>,
    r: Result<(), Error>,
) -> bool {
    match market_prepared(before.decisions, tx, height, aligned) {
        Err(e) => r == Err::<(), Error>(e),
        Ok((next, creator, named)) => match plan {
            None => r == Err::<(), Error>(
                Error::InvalidTransaction { reason: Reason::Text("Market creation failed") },
            ),
            Some(plan) => {
                &&& r is Ok
                &&& after.decisions == next
                &&& after.markets == (MarketsView {
                    funds: match treasury_output(tx.transaction.outputs@, plan.id) {
                        Some(i) => before.markets.funds.insert(
                            funds(plan.id, false),
                            OutPoint::Regular { txid: tx.transaction.id(), vout: i as u32 },
                        ),
                        None => before.markets.funds,
                    },
                    ..before.markets
                })
                &&& after.update.creations.len() == before.update.creations.len() + 1
                &&& after.update == (StateUpdateView {
                    creations: before.update.creations.push(after.update.creations.last()),
                    ..before.update
                })
                &&& is_new_market(
                    after.update.creations.last(),
                    tx,
                    creator,
                    plan,
                    named,
                    height,
                )
            },
        },
    }
}

/// Claims the new decisions of a market and prepares the market. It is
/// stored with the rest of the update; only where its treasury is, is noted at
/// once. `aligned` says of each new claim whether the range of a scaled
/// decision is a whole number of increments; without a plan, no market can be
/// made of the decisions.
pub fn apply_market_creation(
    decisions: &mut Dbs,
    markets: &mut MarketsDatabase,
    filled_tx: &FilledTransaction,
    state_update: &mut StateUpdate,
    height: u32,
    aligned: &Vec<bool>,
    plan: &Option<MarketPlan>,
) -> (r: Result<(), Error>)
    requires
        filled_tx.transaction.encodable(),
    ensures
        is_creation(
            Making {
                decisions: old(decisions)@,
                markets: old(markets)@,
                update: old(state_update)@,
            },
            Making {
                decisions: final(decisions)@,
                markets: final(markets)@,
                update: final(state_update)@,
            },
            *filled_tx,
            height,
            aligned@,
            *plan,
            r,
        ),
{
    let view = match filled_tx.as_market_creation() {
        None => return Err(
            Error::InvalidTransaction { reason: Reason::Text("Not a market creation transaction") },
        ),
        Some(view) => view,
    };
    let creator_address = match extract_creator_address(filled_tx) {
        Err(e) => return Err(e),
        Ok(address) => address,
    };
    let txid = filled_tx.txid();
    match claim_payloads(decisions, view.new_claims, creator_address, txid, height, aligned) {
        Err(e) => return Err(e),
        Ok(()) => {},
    }
    let (named, decision_ids) = match name_decisions(decisions, view.dimension_specs) {
        Err(e) => return Err(e),
        Ok(named) => named,
    };
    let plan = match plan {
        None => return Err(
            Error::InvalidTransaction { reason: Reason::Text("Market creation failed") },
        ),
        Some(plan) => *plan,
    };
    let tags = compute_market_tags(&named);
    let mut liquidity_base_sats: u64 = 0;
    match find_treasury_output(filled_tx.outputs(), &plan.id) {
        None => {},
        Some((i, sats)) => {
            assert(filled_tx.transaction.outputs.encodable());
            let outpoint = OutPoint::Regular { txid, vout: i as u32 };
            markets.set_market_funds_utxo(&plan.id, false, &outpoint);
            liquidity_base_sats = sats;
        },
    }
    let (shares, volumes) = zeros(plan.outcome_count);
    let market = Market {
        terms: MarketTerms {
            id: plan.id,
            creator_address,
            title: view.title.duplicate(),
            description: view.description.duplicate(),
            tags: boxed(tags),
            dimension_specs: boxed_copy(view.dimension_specs),
            decision_ids: boxed(decision_ids),
            trading_fee: match view.trading_fee {
                Some(fee) => fee,
                None => plan.default_trading_fee,
            },
            tx_pow_hash_selector: unwrap_or_zero(view.tx_pow_hash_selector),
            tx_pow_ordering: unwrap_or_zero(view.tx_pow_ordering),
            tx_pow_difficulty: unwrap_or_zero(view.tx_pow_difficulty),
            created_at_height: height,
        },
        state: MarketState::Trading,
        shares,
        volumes,
        liquidity_base_sats,
        last_updated_height: height,
    };
    let ghost before = state_update@;
    state_update.add_market_creation(market);
    assert(state_update@.creations.last() == market@);
    Ok(())
}

/// Takes back a market, and the claims that were made with it.
pub fn revert_create_market(
    decisions: &mut Dbs,
    markets: &mut MarketsDatabase,
    filled_tx: &FilledTransaction,
    market_id: &MarketId,
) -> (r: Result<(), Error>)
    ensures
        match filled_tx.transaction.data {
            Some(
                TransactionData::CreateMarket {
                    title,
                    description,
                    dimension_specs,
                    new_claims,
                    trading_fee,
                    tx_pow_hash_selector,
                    tx_pow_ordering,
                    tx_pow_difficulty,
                },
            ) => match creator_of(*filled_tx) {
                Err(e) => r == Err::<(), Error>(e),
                Ok(_) => {
                    &&& r is Ok
                    &&& final(markets)@ == (MarketsView {
                        markets: old(markets)@.markets.remove(*market_id),
                        ..old(markets)@
                    })
                    &&& final(decisions)@ == payloads_unclaimed(old(decisions)@, new_claims@)
                },
            },
            _ => r == Err::<(), Error>(
                Error::InvalidTransaction {
                    reason: Reason::Text("Not a market creation transaction"),
                },
            ),
        },
{
    let view = match filled_tx.as_market_creation() {
        None => return Err(
            Error::InvalidTransaction { reason: Reason::Text("Not a market creation transaction") },
        ),
        Some(view) => view,
    };
    match extract_creator_address(filled_tx) {
        Err(e) => return Err(e),
        Ok(_) => {},
    }
    let _ = markets.delete_market(market_id);
    let payloads = view.new_claims;
    let ghost start = decisions@;
    let mut i: usize = 0;
    assert(payloads@.subrange(0, 0) =~= Seq::empty());
    while i < payloads.len()
        invariant
            i <= payloads@.len(),
            decisions@ == payloads_unclaimed(start, payloads@.subrange(0, i as int)),
        decreases payloads@.len() - i,
    {
        proof {
            assert(payloads@.subrange(0, i + 1).drop_last() =~= payloads@.subrange(0, i as int));
        }
        unclaim_entries(decisions, &payloads[i].decisions);
        i += 1;
    }
    assert(payloads@.subrange(0, i as int) =~= payloads@);
    Ok(())
}

} // verus!
