//! The decisions of each period, their histories, and their pricing.

use vstd::prelude::*;

use crate::bytes::to_vec;
use crate::hex::decimal;
use crate::state::decisions::order::{
    any_claimed, claimed_among, lemma_with_claim_claims, with_claim, Claims,
};
use crate::state::decisions::pricing::{
    fresh_pricing, slot_unlocked, unlocked, PeriodPricing, SLOTS_PER_TIER, SLOTS_PER_TIER_PER_MINT,
    TIER_COUNT,
};
use crate::state::decisions::types::{
    current_of, decision_id_is_its_parts, minus_one, period_name, period_to_string, up_to_height,
    Decision, DecisionConfig, DecisionEntry, DecisionId, DecisionState, DecisionStateHistory,
    FUTURE_PERIODS, HistoryEntry, INITIAL_DECISIONS_PER_PERIOD, MAX_DECISION_INDEX,
    MAX_PERIOD_INDEX,
};
use crate::state::{Error, Reason};
use crate::table::{has_key, lemma_rows_mapped, row_has_key, rows_mapped, rows_of, Table};
use crate::types::{Duplicate, Real, Txid};

verus! {

pub const DECISIONS_DECLINING_RATE: u64 = 25;

/// What the pricing of a period was, if it had one.
pub type PeriodPricingUndoEntry = (u32, Option<PeriodPricing>);

/// The decisions that are claimed in a period, each with its entries in their
/// order.
pub type PeriodEntries = Map<DecisionId, Seq<DecisionEntry>>;

pub struct Dbs {
    pub period_decisions: Table<u32, Table<DecisionId, Claims>>,
    pub decision_state_histories: Table<DecisionId, DecisionStateHistory>,
    pub period_pricing: Table<u32, PeriodPricing>,
    pub period_pricing_undo: Table<u32, Vec<PeriodPricingUndoEntry>>,
    pub config: DecisionConfig,
    /// The price with which the first periods start.
    pub genesis_p_period_sats: u64,
}

#[verifier::ext_equal]
pub struct DecisionsView {
    pub periods: Map<u32, PeriodEntries>,
    pub histories: Map<DecisionId, Seq<HistoryEntry>>,
    pub pricing: Map<u32, PeriodPricing>,
    pub pricing_undo: Map<u32, Seq<PeriodPricingUndoEntry>>,
    pub config: DecisionConfig,
    pub genesis_p_period_sats: u64,
}

pub open spec fn entries_view(m: Map<DecisionId, Claims>) -> PeriodEntries {
    m.map_values(|c: Claims| c@)
}

pub open spec fn periods_view(m: Map<u32, Table<DecisionId, Claims>>) -> Map<u32, PeriodEntries> {
    m.map_values(|t: Table<DecisionId, Claims>| entries_view(t@))
}

pub open spec fn histories_view(m: Map<DecisionId, DecisionStateHistory>) -> Map<
    DecisionId,
    Seq<HistoryEntry>,
> {
    m.map_values(|h: DecisionStateHistory| h@)
}

pub open spec fn undo_view(m: Map<u32, Vec<PeriodPricingUndoEntry>>) -> Map<
    u32,
    Seq<PeriodPricingUndoEntry>,
> {
    m.map_values(|v: Vec<PeriodPricingUndoEntry>| v@)
}

impl View for Dbs {
    type V = DecisionsView;

    open spec fn view(&self) -> DecisionsView {
        DecisionsView {
            periods: periods_view(self.period_decisions@),
            histories: histories_view(self.decision_state_histories@),
            pricing: self.period_pricing@,
            pricing_undo: undo_view(self.period_pricing_undo@),
            config: self.config,
            genesis_p_period_sats: self.genesis_p_period_sats,
        }
    }
}

proof fn lemma_periods_view(
    m: Map<u32, Table<DecisionId, Claims>>,
    k: u32,
    v: Table<DecisionId, Claims>,
)
    ensures
        periods_view(m.insert(k, v)) == periods_view(m).insert(k, entries_view(v@)),
        periods_view(m.remove(k)) == periods_view(m).remove(k),
        periods_view(m.remove(k).insert(k, v)) == periods_view(m).insert(k, entries_view(v@)),
{
    assert(periods_view(m.insert(k, v)) =~= periods_view(m).insert(k, entries_view(v@)));
    assert(periods_view(m.remove(k)) =~= periods_view(m).remove(k));
    assert(m.remove(k).insert(k, v) =~= m.insert(k, v));
}

proof fn lemma_entries_view(m: Map<DecisionId, Claims>, k: DecisionId, v: Claims)
    ensures
        entries_view(m.insert(k, v)) == entries_view(m).insert(k, v@),
        entries_view(m.remove(k)) == entries_view(m).remove(k),
        entries_view(m.remove(k).insert(k, v)) == entries_view(m).insert(k, v@),
{
    assert(entries_view(m.insert(k, v)) =~= entries_view(m).insert(k, v@));
    assert(entries_view(m.remove(k)) =~= entries_view(m).remove(k));
    assert(m.remove(k).insert(k, v) =~= m.insert(k, v));
}

proof fn lemma_entries_empty(m: Map<DecisionId, Claims>)
    ensures
        entries_view(m) == Map::<DecisionId, Seq<DecisionEntry>>::empty() <==> m == Map::<
            DecisionId,
            Claims,
        >::empty(),
{
    let none = Map::<DecisionId, Seq<DecisionEntry>>::empty();
    if entries_view(m) == none {
        assert forall|id: DecisionId| !m.dom().contains(id) by {
            assert(!none.dom().contains(id));
            assert(entries_view(m).dom().contains(id) == m.dom().contains(id));
        }
        assert(m =~= Map::empty());
    }
    if m == Map::<DecisionId, Claims>::empty() {
        assert(entries_view(m) =~= none);
    }
}

proof fn lemma_histories_view(
    m: Map<DecisionId, DecisionStateHistory>,
    k: DecisionId,
    v: DecisionStateHistory,
)
    ensures
        histories_view(m.insert(k, v)) == histories_view(m).insert(k, v@),
        histories_view(m.remove(k).insert(k, v)) == histories_view(m).insert(k, v@),
{
    assert(histories_view(m.insert(k, v)) =~= histories_view(m).insert(k, v@));
    assert(m.remove(k).insert(k, v) =~= m.insert(k, v));
}

/// How many decisions a period offers: all in the present period, fewer in
/// each one after it, and none in the past or too far ahead.
pub open spec fn decisions_offered(period: u32, current_period: u32) -> u64 {
    if period < current_period || period - current_period >= FUTURE_PERIODS {
        0
    } else {
        (INITIAL_DECISIONS_PER_PERIOD - (period - current_period) * DECISIONS_DECLINING_RATE) as u64
    }
}

pub fn calculate_available_decisions(period: u32, current_period: u32) -> (r: u64)
    ensures
        r == decisions_offered(period, current_period),
{
    if period < current_period {
        return 0;
    }
    let offset: u32 = period - current_period;
    if offset >= FUTURE_PERIODS {
        return 0;
    }
    INITIAL_DECISIONS_PER_PERIOD - (offset as u64) * DECISIONS_DECLINING_RATE
}

/// A period lies more than seven periods back.
pub open spec fn settled(period: u32, current_period: u32) -> bool {
    current_period > period + 7
}

/// The greatest key of a map.
pub open spec fn is_highest<V>(m: Map<u32, V>, h: u32) -> bool {
    m.dom().contains(h) && forall|k: u32| #[trigger] m.dom().contains(k) ==> k <= h
}

/// The last period for which there is a row.
pub open spec fn highest_period<V>(m: Map<u32, V>) -> Option<u32> {
    if exists|h: u32| is_highest(m, h) {
        Some(choose|h: u32| is_highest(m, h))
    } else {
        None
    }
}

proof fn lemma_highest<V>(m: Map<u32, V>, h: u32)
    requires
        is_highest(m, h),
    ensures
        highest_period(m) == Some(h),
{
    let c = choose|c: u32| is_highest(m, c);
    assert(is_highest(m, c));
    assert(m.dom().contains(c) && m.dom().contains(h));
}

/// Rows for the periods after the last one up to a target.
pub open spec fn minted(periods: Map<u32, PeriodEntries>, target: u32) -> Map<u32, PeriodEntries> {
    let highest = match highest_period(periods) {
        Some(h) => h,
        None => 0,
    };
    minted_from(periods, (highest + 1) as int, target + 1)
}

/// Empty rows for the periods from one up to another, which is left out.
pub open spec fn minted_from(
    periods: Map<u32, PeriodEntries>,
    from: int,
    to: int,
) -> Map<u32, PeriodEntries>
    decreases to - from,
{
    if from >= to {
        periods
    } else {
        minted_from(periods, from, to - 1).insert((to - 1) as u32, Map::empty())
    }
}

/// The mean price of the periods ahead of the present one.
pub open spec fn price_sum(pricing: Map<u32, PeriodPricing>, current_period: u32, n: int) -> (
    nat,
    nat,
)
    decreases n,
{
    if n <= 1 {
        (0, 0)
    } else {
        let (sum, count) = price_sum(pricing, current_period, n - 1);
        let period = (current_period + n - 1) as u32;
        if pricing.dom().contains(period) {
            (sum + pricing[period].p_period as nat, count + 1)
        } else {
            (sum, count)
        }
    }
}

pub open spec fn average_price(
    pricing: Map<u32, PeriodPricing>,
    current_period: u32,
    genesis_p_period_sats: u64,
) -> u64 {
    let (sum, count) = price_sum(pricing, current_period, FUTURE_PERIODS as int);
    if count == 0 {
        genesis_p_period_sats
    } else {
        (sum as int / count as int) as u64
    }
}

pub proof fn lemma_price_sum_bounds(pricing: Map<u32, PeriodPricing>, current_period: u32, n: int)
    ensures
        ({
            let (sum, count) = price_sum(pricing, current_period, n);
            &&& sum <= count * u64::MAX
            &&& count <= if n <= 1 { 0 } else { n - 1 }
        }),
    decreases n,
{
    if n > 1 {
        lemma_price_sum_bounds(pricing, current_period, n - 1);
        let (sum, count) = price_sum(pricing, current_period, n - 1);
        assert((count + 1) * u64::MAX == count * u64::MAX + u64::MAX) by (nonlinear_arith);
    }
}

/// New periods get a price, one after the other: each the mean of those ahead.
pub open spec fn seeded(
    pricing: Map<u32, PeriodPricing>,
    current_period: u32,
    block_height: u32,
    genesis_p_period_sats: u64,
    from: int,
    to: int,
) -> Map<u32, PeriodPricing>
    decreases to - from,
{
    if from >= to {
        pricing
    } else {
        let before = seeded(
            pricing,
            current_period,
            block_height,
            genesis_p_period_sats,
            from,
            to - 1,
        );
        before.insert(
            (to - 1) as u32,
            fresh_pricing(
                average_price(before, current_period, genesis_p_period_sats),
                1,
                block_height,
            ),
        )
    }
}

/// The first periods get their price.
pub open spec fn genesis_pricing(
    pricing: Map<u32, PeriodPricing>,
    current_period: u32,
    block_height: u32,
    genesis_p_period_sats: u64,
    n: int,
) -> Map<u32, PeriodPricing>
    decreases n,
{
    if n <= 0 {
        pricing
    } else {
        let before = genesis_pricing(
            pricing,
            current_period,
            block_height,
            genesis_p_period_sats,
            n - 1,
        );
        let period = (current_period + n - 1) as u32;
        if before.dom().contains(period) {
            before
        } else {
            before.insert(
                period,
                fresh_pricing(
                    genesis_p_period_sats,
                    (FUTURE_PERIODS - (n - 1)) as u64,
                    block_height,
                ),
            )
        }
    }
}

/// The pricing that an undo record gives back: only the periods in the record
/// remain, with what it holds for them.
pub open spec fn restored_pricing(
    pricing: Map<u32, PeriodPricing>,
    record: Seq<PeriodPricingUndoEntry>,
) -> Map<u32, PeriodPricing> {
    put_back(
        pricing.restrict(Set::new(|p: u32| has_key(record, p))),
        record,
    )
}

pub open spec fn put_back(
    pricing: Map<u32, PeriodPricing>,
    record: Seq<PeriodPricingUndoEntry>,
) -> Map<u32, PeriodPricing>
    decreases record.len(),
{
    if record.len() == 0 {
        pricing
    } else {
        let before = put_back(pricing, record.drop_last());
        match record.last().1 {
            Some(p) => before.insert(record.last().0, p),
            None => before,
        }
    }
}

/// The record of all that is priced, in the order of the rows.
pub open spec fn snapshot_of(pricing: Map<u32, PeriodPricing>) -> Seq<PeriodPricingUndoEntry> {
    Seq::new(
        rows_of(pricing).len(),
        |i: int| (rows_of(pricing)[i].0, Some(rows_of(pricing)[i].1)),
    )
}

/// A record of all that is priced.
pub open spec fn is_snapshot(
    record: Seq<PeriodPricingUndoEntry>,
    pricing: Map<u32, PeriodPricing>,
) -> bool {
    &&& forall|i: int|
        0 <= i < record.len() ==> pricing.dom().contains((#[trigger] record[i]).0) && record[i].1
            == Some(pricing[record[i].0])
    &&& forall|p: u32| #[trigger] pricing.dom().contains(p) ==> has_key(record, p)
}

/// A record of all that was priced gives it back, whatever is priced by then.
pub proof fn restoring_undoes_pricing(
    before: Map<u32, PeriodPricing>,
    now: Map<u32, PeriodPricing>,
    record: Seq<PeriodPricingUndoEntry>,
)
    requires
        is_snapshot(record, before),
    ensures
        restored_pricing(now, record) == before,
{
    let start = now.restrict(Set::new(|p: u32| has_key(record, p)));
    lemma_put_back(start, before, record, record.len() as int);
    assert(record.subrange(0, record.len() as int) =~= record);
    let end = put_back(start, record);
    assert forall|p: u32| end.dom().contains(p) <==> before.dom().contains(p) by {
        if end.dom().contains(p) {
            assert(has_key(record, p));
            let i = choose|i: int| row_has_key(record, p, i);
            assert(before.dom().contains(record[i].0));
        }
    }
    assert(end =~= before);
}

proof fn lemma_put_back(
    start: Map<u32, PeriodPricing>,
    before: Map<u32, PeriodPricing>,
    record: Seq<PeriodPricingUndoEntry>,
    n: int,
)
    requires
        is_snapshot(record, before),
        0 <= n <= record.len(),
        forall|p: u32| #[trigger] start.dom().contains(p) ==> has_key(record, p),
    ensures
        ({
            let m = put_back(start, record.subrange(0, n));
            &&& forall|p: u32| #[trigger] m.dom().contains(p) ==> has_key(record, p)
            &&& forall|i: int|
                0 <= i < n ==> m.dom().contains((#[trigger] record[i]).0) && m[record[i].0]
                    == before[record[i].0]
        }),
    decreases n,
{
    if n > 0 {
        lemma_put_back(start, before, record, n - 1);
        assert(record.subrange(0, n).drop_last() =~= record.subrange(0, n - 1));
        assert(record.subrange(0, n).last() == record[n - 1]);
        assert(row_has_key(record, record[n - 1].0, n - 1));
        assert(record[n - 1].1 == Some(before[record[n - 1].0]));
        let mid = put_back(start, record.subrange(0, n - 1));
        let m = put_back(start, record.subrange(0, n));
        assert(m == mid.insert(record[n - 1].0, before[record[n - 1].0]));
        assert forall|p: u32| #[trigger] m.dom().contains(p) implies has_key(record, p) by {
            if p != record[n - 1].0 {
                assert(mid.dom().contains(p));
            }
        }
        assert forall|i: int| 0 <= i < n implies m.dom().contains((#[trigger] record[i]).0)
            && m[record[i].0] == before[record[i].0] by {
            if i < n - 1 {
                assert(mid.dom().contains(record[i].0));
            }
        }
    } else {
        assert(record.subrange(0, 0) =~= Seq::empty());
    }
}

/// The state of a decision: that of its history, or `Created`.
pub open spec fn state_of(view: DecisionsView, id: DecisionId) -> DecisionState {
    if view.histories.dom().contains(id) {
        current_of(view.histories[id])
    } else {
        DecisionState::Created
    }
}

/// A decision is claimed.
pub open spec fn is_claimed(view: DecisionsView, id: DecisionId) -> bool {
    let period = id.period();
    &&& view.periods.dom().contains(period)
    &&& view.periods[period].dom().contains(id)
    &&& any_claimed(view.periods[period][id])
}

/// Why a decision cannot be claimed.
pub open spec fn claim_problem(
    view: DecisionsView,
    decision_id: DecisionId,
    current_period: u32,
) -> Option<Error> {
    let period = decision_id.period();
    if settled(period, current_period) {
        Some(Error::DecisionNotAvailable { decision_id, reason: Reason::PeriodSettled(period) })
    } else if state_of(view, decision_id) is Voting {
        Some(
            Error::DecisionNotAvailable {
                decision_id,
                reason: Reason::DecisionInVoting(decision_id),
            },
        )
    } else if period > current_period + FUTURE_PERIODS - 1 {
        Some(
            Error::DecisionNotAvailable {
                decision_id,
                reason: Reason::PeriodTooFarAhead {
                    period,
                    last: (current_period + FUTURE_PERIODS - 1) as u32,
                },
            },
        )
    } else if decision_id.standard() && period < current_period {
        Some(
            Error::DecisionNotAvailable {
                decision_id,
                reason: Reason::PeriodNotActive {
                    period,
                    first: current_period,
                    last: (current_period + FUTURE_PERIODS - 1) as u32,
                },
            },
        )
    } else if decision_id.standard() && !view.pricing.dom().contains(period) {
        Some(
            Error::DecisionNotAvailable { decision_id, reason: Reason::NoPricing(period) },
        )
    } else if decision_id.standard() && !unlocked(
        decision_id.index(),
        view.pricing[period].mints,
    ) {
        Some(
            Error::DecisionNotAvailable {
                decision_id,
                reason: Reason::NotUnlocked {
                    index: decision_id.index(),
                    period,
                    mints: view.pricing[period].mints,
                },
            },
        )
    } else if is_claimed(view, decision_id) {
        Some(Error::DecisionAlreadyClaimed { decision_id })
    } else {
        None
    }
}

/// The entries of a period, none if there is no row for it.
pub open spec fn entries_of(view: DecisionsView, period: u32) -> PeriodEntries {
    if view.periods.dom().contains(period) {
        view.periods[period]
    } else {
        Map::empty()
    }
}

/// The entries of a decision, if it has any.
pub open spec fn claims_of(entries: PeriodEntries, decision_id: DecisionId) -> Seq<DecisionEntry> {
    if entries.dom().contains(decision_id) {
        entries[decision_id]
    } else {
        Seq::empty()
    }
}

/// A decision is claimed. Where it has an entry, it gets another one.
pub open spec fn claimed(
    view: DecisionsView,
    decision_id: DecisionId,
    decision: Decision,
    claiming_txid: Txid,
    block_height: u32,
) -> Result<DecisionsView, Error> {
    let period = decision_id.period();
    let entry = DecisionEntry { decision_id, decision: Some(decision), claiming_txid };
    let next = DecisionsView {
        periods: view.periods.insert(
            period,
            entries_of(view, period).insert(
                decision_id,
                with_claim(claims_of(entries_of(view, period), decision_id), entry),
            ),
        ),
        histories: view.histories.insert(
            decision_id,
            seq![(DecisionState::Claimed, block_height, None)],
        ),
        ..view
    };
    if decision_id.standard() {
        if !view.pricing.dom().contains(period) {
            Err(Error::InvalidTransaction { reason: Reason::NoPricing(period) })
        } else {
            let pricing = view.pricing[period];
            Ok(
                DecisionsView {
                    pricing: view.pricing.insert(
                        period,
                        PeriodPricing {
                            claimed: if pricing.claimed < u64::MAX {
                                (pricing.claimed + 1) as u64
                            } else {
                                u64::MAX
                            },
                            ..pricing
                        },
                    ),
                    ..next
                },
            )
        }
    } else {
        Ok(next)
    }
}

/// The rows of periods without the first entry of a decision; a period whose
/// last entry it was loses its row.
pub open spec fn without_entry(
    periods: Map<u32, PeriodEntries>,
    decision_id: DecisionId,
) -> Map<u32, PeriodEntries> {
    let period = decision_id.period();
    if periods.dom().contains(period) && periods[period].dom().contains(decision_id) {
        let claims = periods[period][decision_id];
        if claims.len() > 1 {
            periods.insert(period, periods[period].insert(decision_id, claims.skip(1)))
        } else {
            let rest = periods[period].remove(decision_id);
            if rest == Map::<DecisionId, Seq<DecisionEntry>>::empty() {
                periods.remove(period)
            } else {
                periods.insert(period, rest)
            }
        }
    } else {
        periods
    }
}

/// The ids in `histories` that are in a state and whose period lies back: the
/// one they are claimed in, or with `lag` one more.
pub open spec fn needs_transition(
    history: Seq<HistoryEntry>,
    id: DecisionId,
    from_state: DecisionState,
    lag: u32,
    current_period: u32,
) -> bool {
    current_of(history) == from_state && current_period > id.period() + lag
}

impl Dbs {
    pub fn new_with_config(config: DecisionConfig, genesis_p_period_sats: u64) -> (r: Self)
        ensures
            r@ == (DecisionsView {
                periods: Map::empty(),
                histories: Map::empty(),
                pricing: Map::empty(),
                pricing_undo: Map::empty(),
                config,
                genesis_p_period_sats,
            }),
    {
        let r = Dbs {
            period_decisions: Table::new(),
            decision_state_histories: Table::new(),
            period_pricing: Table::new(),
            period_pricing_undo: Table::new(),
            config,
            genesis_p_period_sats,
        };
        assert(r@.periods =~= Map::empty());
        assert(r@.histories =~= Map::empty());
        assert(r@.pricing_undo =~= Map::empty());
        r
    }

    pub fn new(genesis_p_period_sats: u64) -> (r: Self)
        ensures
            r@ == (DecisionsView {
                periods: Map::empty(),
                histories: Map::empty(),
                pricing: Map::empty(),
                pricing_undo: Map::empty(),
                config: (DecisionConfig { is_blocks: false, quantity: 86400 }),
                genesis_p_period_sats,
            }),
    {
        Dbs::new_with_config(DecisionConfig::default(), genesis_p_period_sats)
    }

    pub fn get_highest_minted_period(&self) -> (r: Option<u32>)
        ensures
            r == highest_period(self@.periods),
            r is None ==> self@.periods == Map::<u32, PeriodEntries>::empty(),
            r is Some ==> is_highest(self@.periods, r->0),
    {
        self.period_decisions.rows_facts();
        let ghost rows = self.period_decisions.rows();
        let mut highest: Option<u32> = None;
        let mut i: usize = 0;
        while i < self.period_decisions.len()
            invariant
                i <= rows.len(),
                rows == self.period_decisions.rows(),
                highest is None <==> i == 0,
                highest is Some ==> self.period_decisions@.dom().contains(highest->0),
                highest is Some ==> forall|j: int|
                    0 <= j < i ==> (#[trigger] rows[j]).0 <= highest->0,
            decreases rows.len() - i,
        {
            let period: u32 = self.period_decisions.row(i).0;
            highest = match highest {
                Some(h) => if period > h {
                    Some(period)
                } else {
                    Some(h)
                },
                None => Some(period),
            };
            i += 1;
        }
        proof {
            match highest {
                Some(h) => {
                    assert forall|k: u32| #[trigger] self@.periods.dom().contains(k) implies k
                        <= h by {
                        assert(has_key(rows, k));
                        let j = choose|j: int| row_has_key(rows, k, j);
                        assert(rows[j].0 <= h);
                    }
                    lemma_highest(self@.periods, h);
                },
                None => {
                    assert forall|k: u32| !self@.periods.dom().contains(k) by {
                        if self@.periods.dom().contains(k) {
                            assert(has_key(rows, k));
                        }
                    }
                    assert(self@.periods =~= Map::empty());
                },
            }
        }
        highest
    }

    fn mint_periods_up_to(&mut self, target_period: u32)
        requires
            target_period < u32::MAX,
        ensures
            final(self)@ == (DecisionsView {
                periods: minted(old(self)@.periods, target_period),
                ..old(self)@
            }),
    {
        let highest: u32 = match self.get_highest_minted_period() {
            Some(h) => h,
            None => 0,
        };
        if highest >= target_period {
            assert(minted(self@.periods, target_period) == self@.periods);
            return;
        }
        let ghost periods = self@.periods;
        let ghost before = *self;
        let mut period: u32 = highest + 1;
        while period <= target_period
            invariant
                highest + 1 <= period <= target_period + 1,
                target_period < u32::MAX,
                self@ == (DecisionsView {
                    periods: minted_from(periods, highest + 1, period as int),
                    ..before@
                }),
            decreases target_period + 1 - period,
        {
            let empty: Table<DecisionId, Claims> = Table::new();
            proof {
                assert(entries_view(empty@) =~= Map::empty());
                lemma_periods_view(self.period_decisions@, period, empty);
            }
            self.period_decisions.put(period, empty);
            period += 1;
        }
    }

    /// Opens the periods ahead of the first one.
    pub fn mint_genesis(&mut self, current_period: u32, block_height: u32)
        requires
            current_period + FUTURE_PERIODS < u32::MAX,
        ensures
            final(self)@ == (DecisionsView {
                periods: minted(
                    old(self)@.periods,
                    (current_period + FUTURE_PERIODS - 1) as u32,
                ),
                pricing: genesis_pricing(
                    old(self)@.pricing,
                    current_period,
                    block_height,
                    old(self)@.genesis_p_period_sats,
                    FUTURE_PERIODS as int,
                ),
                ..old(self)@
            }),
    {
        let target: u32 = current_period + FUTURE_PERIODS - 1;
        self.mint_periods_up_to(target);
        let ghost start = self@;
        let mut n: u32 = 0;
        while n < FUTURE_PERIODS
            invariant
                n <= FUTURE_PERIODS,
                current_period + FUTURE_PERIODS < u32::MAX,
                start.pricing == old(self)@.pricing,
                start.genesis_p_period_sats == old(self)@.genesis_p_period_sats,
                self@ == (DecisionsView {
                    pricing: genesis_pricing(
                        start.pricing,
                        current_period,
                        block_height,
                        start.genesis_p_period_sats,
                        n as int,
                    ),
                    ..start
                }),
            decreases FUTURE_PERIODS - n,
        {
            let period: u32 = current_period + n;
            if !self.period_pricing.contains(&period) {
                let mints: u64 = (FUTURE_PERIODS - n) as u64;
                self.period_pricing.put(
                    period,
                    PeriodPricing::fresh(self.genesis_p_period_sats, mints, block_height),
                );
            }
            n += 1;
        }
    }

    /// Records the whole pricing for a height, before it changes.
    pub fn snapshot_period_pricing(&mut self, block_height: u32)
        ensures
            final(self)@.pricing_undo.dom().contains(block_height),
            is_snapshot(final(self)@.pricing_undo[block_height], old(self)@.pricing),
            final(self)@ == (DecisionsView {
                pricing_undo: old(self)@.pricing_undo.insert(
                    block_height,
                    snapshot_of(old(self)@.pricing),
                ),
                ..old(self)@
            }),
    {
        let mut record: Vec<PeriodPricingUndoEntry> = Vec::new();
        self.period_pricing.rows_facts();
        let ghost rows = self.period_pricing.rows();
        let mut i: usize = 0;
        while i < self.period_pricing.len()
            invariant
                i <= rows.len(),
                rows == self.period_pricing.rows(),
                *self == *old(self),
                record@.len() == i,
                forall|j: int|
                    0 <= j < i ==> #[trigger] record@[j] == (rows[j].0, Some(rows[j].1)),
            decreases rows.len() - i,
        {
            let row = self.period_pricing.row(i);
            record.push((row.0, Some(row.1)));
            i += 1;
        }
        proof {
            let r = record@;
            assert forall|p: u32| #[trigger] self@.pricing.dom().contains(p) implies has_key(
                r,
                p,
            ) by {
                assert(has_key(rows, p));
                let j = choose|j: int| row_has_key(rows, p, j);
                assert(r[j].0 == p);
                assert(row_has_key(r, p, j));
            }
            assert forall|j: int| 0 <= j < r.len() implies self@.pricing.dom().contains(
                (#[trigger] r[j]).0,
            ) && r[j].1 == Some(self@.pricing[r[j].0]) by {
                assert(self.period_pricing@.dom().contains(rows[j].0));
            }
            let m = self.period_pricing_undo@;
            assert(undo_view(m.insert(block_height, record)) =~= undo_view(m).insert(
                block_height,
                record@,
            ));
        }
        assert(record@ =~= snapshot_of(self@.pricing));
        self.period_pricing_undo.put(block_height, record);
        assert(self@.pricing_undo[block_height] == record@);
    }

    /// Gives back the pricing that was recorded for a height.
    pub fn restore_period_pricing_undo(&mut self, block_height: u32)
        ensures
            final(self)@ == if old(self)@.pricing_undo.dom().contains(block_height) {
                DecisionsView {
                    pricing: restored_pricing(
                        old(self)@.pricing,
                        old(self)@.pricing_undo[block_height],
                    ),
                    pricing_undo: old(self)@.pricing_undo.remove(block_height),
                    ..old(self)@
                }
            } else {
                old(self)@
            },
    {
        let record = match self.period_pricing_undo.take(&block_height) {
            None => {
                proof {
                    assert(self.period_pricing_undo@ =~= old(self).period_pricing_undo@);
                }
                return;
            },
            Some(record) => record,
        };
        proof {
            let m = old(self).period_pricing_undo@;
            assert(undo_view(m.remove(block_height)) =~= undo_view(m).remove(block_height));
            assert(undo_view(m)[block_height] == record@);
        }
        let ghost pricing = self.period_pricing@;
        let ghost kept = pricing.restrict(Set::new(|p: u32| has_key(record@, p)));
        // Keep only the periods in the record.
        let mut next: Table<u32, PeriodPricing> = Table::new();
        let mut i: usize = 0;
        while i < record.len()
            invariant
                i <= record@.len(),
                self.period_pricing@ == pricing,
                forall|p: u32| #[trigger]
                    next@.dom().contains(p) <==> pricing.dom().contains(p) && exists|j: int|
                        0 <= j < i && (#[trigger] record@[j]).0 == p,
                forall|p: u32| #[trigger]
                    next@.dom().contains(p) ==> next@[p] == pricing[p],
            decreases record@.len() - i,
        {
            let period: u32 = record[i].0;
            let ghost before = next@;
            match self.period_pricing.get(&period) {
                Some(p) => {
                    next.put(period, *p);
                },
                None => {},
            }
            proof {
                assert forall|p: u32| #[trigger]
                    next@.dom().contains(p) <==> pricing.dom().contains(p) && exists|j: int|
                    0 <= j < i + 1 && (#[trigger] record@[j]).0 == p by {
                    if before.dom().contains(p) {
                        let j = choose|j: int| 0 <= j < i && (#[trigger] record@[j]).0 == p;
                        assert(0 <= j < i + 1);
                    }
                    if p == period {
                        assert(record@[i as int].0 == p);
                    }
                }
            }
            i += 1;
        }
        proof {
            assert forall|p: u32| next@.dom().contains(p) <==> kept.dom().contains(p) by {
                if has_key(record@, p) {
                    let j = choose|j: int| row_has_key(record@, p, j);
                    assert(record@[j].0 == p);
                }
                if next@.dom().contains(p) {
                    let j = choose|j: int| 0 <= j < i && (#[trigger] record@[j]).0 == p;
                    assert(row_has_key(record@, p, j));
                }
            }
            assert forall|p: u32| #[trigger] next@.dom().contains(p) implies next@[p]
                == kept[p] by {
                assert(kept.dom().contains(p));
            }
            assert(next@.dom() =~= kept.dom());
            assert(next@ =~= kept);
        }
        let mut k: usize = 0;
        assert(record@.subrange(0, 0) =~= Seq::empty());
        while k < record.len()
            invariant
                k <= record@.len(),
                next@ == put_back(kept, record@.subrange(0, k as int)),
            decreases record@.len() - k,
        {
            proof {
                assert(record@.subrange(0, k + 1).drop_last() =~= record@.subrange(0, k as int));
            }
            match record[k].1 {
                Some(p) => {
                    next.put(record[k].0, p);
                },
                None => {},
            }
            k += 1;
        }
        assert(record@.subrange(0, k as int) =~= record@);
        self.period_pricing = next;
    }

    /// The mean price of the periods ahead, or the first price.
    pub fn compute_p_average(&self, current_period: u32) -> (r: u64)
        requires
            current_period + FUTURE_PERIODS < u32::MAX,
        ensures
            r == average_price(self@.pricing, current_period, self@.genesis_p_period_sats),
    {
        let mut sum: u128 = 0;
        let mut count: u128 = 0;
        let mut n: u32 = 1;
        while n < FUTURE_PERIODS
            invariant
                1 <= n <= FUTURE_PERIODS,
                current_period + FUTURE_PERIODS < u32::MAX,
                (sum as nat, count as nat) == price_sum(self@.pricing, current_period, n as int),
            decreases FUTURE_PERIODS - n,
        {
            proof {
                lemma_price_sum_bounds(self@.pricing, current_period, n as int);
                assert(count * u64::MAX <= 20 * u64::MAX) by (nonlinear_arith)
                    requires
                        count <= 20,
                ;
            }
            let period: u32 = current_period + n;
            match self.period_pricing.get(&period) {
                Some(p) => {
                    sum = sum + p.p_period as u128;
                    count = count + 1;
                },
                None => {},
            }
            n += 1;
        }
        if count == 0 {
            return self.genesis_p_period_sats;
        }
        proof {
            lemma_price_sum_bounds(self@.pricing, current_period, n as int);
            assert(sum / count <= u64::MAX) by (nonlinear_arith)
                requires
                    sum <= count * u64::MAX,
                    count > 0,
            ;
        }
        (sum / count) as u64
    }

    pub fn get_period_pricing(&self, period: u32) -> (r: Option<PeriodPricing>)
        ensures
            match r {
                Some(p) => self@.pricing.dom().contains(period) && p == self@.pricing[period],
                None => !self@.pricing.dom().contains(period),
            },
    {
        match self.period_pricing.get(&period) {
            Some(p) => Some(*p),
            None => None,
        }
    }
}

/// The sum of two counts, held at the largest.
pub open spec fn added(a: u64, b: u64) -> u64 {
    if a + b <= u64::MAX {
        (a + b) as u64
    } else {
        u64::MAX
    }
}

/// The priced periods among `n` from one on, each with more mints.
pub open spec fn priced_from(
    pricing: Map<u32, PeriodPricing>,
    from: u32,
    n: int,
    mints: u64,
) -> Seq<(u32, PeriodPricing)>
    decreases n,
{
    if n <= 0 {
        Seq::empty()
    } else {
        let before = priced_from(pricing, from, n - 1, mints);
        let period = (from + n - 1) as u32;
        if pricing.dom().contains(period) {
            before.push(
                (
                    period,
                    PeriodPricing {
                        mints: added(pricing[period].mints, mints),
                        ..pricing[period]
                    },
                ),
            )
        } else {
            before
        }
    }
}

/// Some period in sight was repriced long enough ago.
pub open spec fn reprice_due(
    pricing: Map<u32, PeriodPricing>,
    block_height: u32,
    interval: u32,
    current_period: u32,
) -> bool {
    exists|k: int|
        0 <= k < FUTURE_PERIODS && #[trigger] is_due(
            pricing,
            block_height,
            interval,
            current_period,
            k,
        )
}

pub open spec fn is_due(
    pricing: Map<u32, PeriodPricing>,
    block_height: u32,
    interval: u32,
    current_period: u32,
    k: int,
) -> bool {
    let period = (current_period + k) as u32;
    &&& pricing.dom().contains(period)
    &&& if block_height >= pricing[period].last_reprice_block {
        block_height - pricing[period].last_reprice_block >= interval
    } else {
        interval == 0
    }
}

/// The last period with a row, or zero.
pub open spec fn highest_or_zero(periods: Map<u32, PeriodEntries>) -> u32 {
    match highest_period(periods) {
        Some(h) => h,
        None => 0,
    }
}

/// The present period as of the last time that periods were opened.
pub open spec fn previous_period(periods: Map<u32, PeriodEntries>) -> u32 {
    if highest_or_zero(periods) + 1 >= FUTURE_PERIODS {
        (highest_or_zero(periods) + 1 - FUTURE_PERIODS) as u32
    } else {
        0
    }
}

/// New periods come into sight and get a price.
pub open spec fn periods_opened(
    view: DecisionsView,
    block_height: u32,
    current_period: u32,
) -> DecisionsView {
    let target = (current_period + FUTURE_PERIODS - 1) as u32;
    let opened = DecisionsView { periods: minted(view.periods, target), ..view };
    if current_period > previous_period(view.periods) {
        DecisionsView {
            pricing: seeded(
                view.pricing,
                current_period,
                block_height,
                view.genesis_p_period_sats,
                highest_or_zero(view.periods) + 1,
                target + 1,
            ),
            ..opened
        }
    } else {
        opened
    }
}

/// The periods to be repriced: where the present period has moved on, those
/// that stay in sight, each with its new mints; else all in sight, if one is
/// due.
pub open spec fn to_reprice(
    view: DecisionsView,
    block_height: u32,
    current_period: u32,
    interval: u32,
) -> Seq<(u32, PeriodPricing)> {
    let target = (current_period + FUTURE_PERIODS - 1) as u32;
    let highest = highest_or_zero(view.periods);
    let previous = previous_period(view.periods);
    let pricing = periods_opened(view, block_height, current_period).pricing;
    if current_period > previous {
        let end = if highest <= target {
            highest
        } else {
            target
        };
        priced_from(
            pricing,
            current_period,
            end + 1 - current_period,
            (current_period - previous) as u64,
        )
    } else if reprice_due(pricing, block_height, interval, current_period) {
        priced_from(pricing, current_period, FUTURE_PERIODS as int, 0)
    } else {
        Seq::empty()
    }
}

/// Pricing with the prices of a list set, one after the other.
pub open spec fn with_prices(
    pricing: Map<u32, PeriodPricing>,
    list: Seq<(u32, PeriodPricing)>,
) -> Map<u32, PeriodPricing>
    decreases list.len(),
{
    if list.len() == 0 {
        pricing
    } else {
        with_prices(pricing, list.drop_last()).insert(list.last().0, list.last().1)
    }
}

/// The decisions in rows that are in a state long enough.
pub open spec fn transition_list(
    rows: Seq<(DecisionId, Seq<HistoryEntry>)>,
    from_state: DecisionState,
    lag: u32,
    current_period: u32,
) -> Seq<DecisionId>
    decreases rows.len(),
{
    if rows.len() == 0 {
        Seq::empty()
    } else {
        let before = transition_list(rows.drop_last(), from_state, lag, current_period);
        if needs_transition(rows.last().1, rows.last().0, from_state, lag, current_period) {
            before.push(rows.last().0)
        } else {
            before
        }
    }
}

/// The entries of a period's rows that are claimed.
pub open spec fn claimed_entries(rows: Seq<(DecisionId, Claims)>) -> Seq<DecisionEntry>
    decreases rows.len(),
{
    if rows.len() == 0 {
        Seq::empty()
    } else {
        claimed_entries(rows.drop_last()) + claimed_among(rows.last().1@)
    }
}

/// How many decisions of a period's rows are claimed, all or the standard ones.
pub open spec fn claimed_count(rows: Seq<(DecisionId, Claims)>, standard_only: bool) -> nat
    decreases rows.len(),
{
    if rows.len() == 0 {
        0
    } else {
        claimed_count(rows.drop_last(), standard_only) + if any_claimed(rows.last().1@) && (
        !standard_only || rows.last().0.standard()) {
            1nat
        } else {
            0
        }
    }
}

/// All entries of a period's rows.
pub open spec fn all_entries(rows: Seq<(DecisionId, Claims)>) -> Seq<DecisionEntry>
    decreases rows.len(),
{
    if rows.len() == 0 {
        Seq::empty()
    } else {
        all_entries(rows.drop_last()) + rows.last().1@
    }
}

/// The entries of the rows of settled periods.
pub open spec fn settled_entries(
    rows: Seq<(u32, Table<DecisionId, Claims>)>,
    current_period: u32,
) -> Seq<DecisionEntry>
    decreases rows.len(),
{
    if rows.len() == 0 {
        Seq::empty()
    } else {
        let before = settled_entries(rows.drop_last(), current_period);
        if settled(rows.last().0, current_period) {
            before + all_entries(rows.last().1.rows())
        } else {
            before
        }
    }
}

/// The claimed entries of the rows of all periods.
pub open spec fn all_claimed_entries(rows: Seq<(u32, Table<DecisionId, Claims>)>) -> Seq<
    DecisionEntry,
>
    decreases rows.len(),
{
    if rows.len() == 0 {
        Seq::empty()
    } else {
        all_claimed_entries(rows.drop_last()) + claimed_entries(rows.last().1.rows())
    }
}

/// How many decisions claimed in a period are in voting.
pub open spec fn voting_count(
    rows: Seq<(DecisionId, DecisionStateHistory)>,
    period: u32,
) -> nat
    decreases rows.len(),
{
    if rows.len() == 0 {
        0
    } else {
        voting_count(rows.drop_last(), period) + if current_of(rows.last().1@) is Voting
            && rows.last().0.period() == period {
            1nat
        } else {
            0
        }
    }
}

/// The periods under `n` with decisions in voting: how many there are, and how
/// many a period has.
pub open spec fn voting_list(rows: Seq<(DecisionId, DecisionStateHistory)>, n: int) -> Seq<
    (u32, u64, u64),
>
    decreases n,
{
    if n <= 0 {
        Seq::empty()
    } else {
        let before = voting_list(rows, n - 1);
        let count = voting_count(rows, (n - 1) as u32);
        if count > 0 {
            before.push(((n - 1) as u32, count as u64, INITIAL_DECISIONS_PER_PERIOD))
        } else {
            before
        }
    }
}

/// A period's row without a decision; an empty row goes.
pub open spec fn purged(
    periods: Map<u32, PeriodEntries>,
    decision_id: DecisionId,
) -> Map<u32, PeriodEntries> {
    let period = decision_id.period();
    if periods.dom().contains(period) {
        let rest = periods[period].remove(decision_id);
        if rest == Map::<DecisionId, Seq<DecisionEntry>>::empty() {
            periods.remove(period)
        } else {
            periods.insert(period, rest)
        }
    } else {
        periods
    }
}

pub open spec fn all_purged(
    periods: Map<u32, PeriodEntries>,
    ids: Seq<DecisionId>,
) -> Map<u32, PeriodEntries>
    decreases ids.len(),
{
    if ids.len() == 0 {
        periods
    } else {
        purged(all_purged(periods, ids.drop_last()), ids.last())
    }
}

/// The decisions that a rollback to a height leaves unclaimed.
pub open spec fn unclaimed_by(
    rows: Seq<(DecisionId, Seq<HistoryEntry>)>,
    height: u32,
) -> Seq<DecisionId>
    decreases rows.len(),
{
    if rows.len() == 0 {
        Seq::empty()
    } else {
        let before = unclaimed_by(rows.drop_last(), height);
        let history = rows.last().1;
        if !(current_of(history) is Created) && current_of(
            up_to_height(history, height),
        ) is Created {
            before.push(rows.last().0)
        } else {
            before
        }
    }
}

/// The standard decision of a period with an index.
pub open spec fn standard_id(period: u32, index: u32) -> DecisionId {
    choose|id: DecisionId| id.standard() && id.period() == period && id.index() == index
}

/// The index of the `n`th decision that the mints unlock, tier by tier.
pub open spec fn nth_unlocked(n: int, mints: u64) -> int {
    let per_tier = mints * SLOTS_PER_TIER_PER_MINT;
    (n / per_tier) * SLOTS_PER_TIER + n % per_tier
}

/// The first `n` decisions that the mints unlock, without those claimed.
pub open spec fn available_first(view: DecisionsView, period: u32, mints: u64, n: int) -> Seq<
    DecisionId,
>
    decreases n,
{
    if n <= 0 {
        Seq::empty()
    } else {
        let before = available_first(view, period, mints, n - 1);
        let id = standard_id(period, nth_unlocked(n - 1, mints) as u32);
        if is_claimed(view, id) {
            before
        } else {
            before.push(id)
        }
    }
}

impl Dbs {
    fn any_period_due_for_reprice(
        &self,
        block_height: u32,
        interval: u32,
        current_period: u32,
    ) -> (r: bool)
        requires
            current_period + FUTURE_PERIODS < u32::MAX,
        ensures
            r == reprice_due(self@.pricing, block_height, interval, current_period),
    {
        let mut k: u32 = 0;
        while k < FUTURE_PERIODS
            invariant
                k <= FUTURE_PERIODS,
                current_period + FUTURE_PERIODS < u32::MAX,
                forall|j: int|
                    0 <= j < k ==> !#[trigger] is_due(
                        self@.pricing,
                        block_height,
                        interval,
                        current_period,
                        j,
                    ),
            decreases FUTURE_PERIODS - k,
        {
            let period: u32 = current_period + k;
            match self.period_pricing.get(&period) {
                Some(p) => {
                    let elapsed: u32 = if block_height >= p.last_reprice_block {
                        block_height - p.last_reprice_block
                    } else {
                        0
                    };
                    if elapsed >= interval {
                        assert(is_due(
                            self@.pricing,
                            block_height,
                            interval,
                            current_period,
                            k as int,
                        ));
                        return true;
                    }
                },
                None => {},
            }
            k += 1;
        }
        false
    }

    fn list_priced(&self, from: u32, n: u32, mints: u64) -> (r: Vec<(u32, PeriodPricing)>)
        requires
            from + n < u32::MAX,
        ensures
            r@ == priced_from(self@.pricing, from, n as int, mints),
    {
        let mut r: Vec<(u32, PeriodPricing)> = Vec::new();
        let mut k: u32 = 0;
        while k < n
            invariant
                k <= n,
                from + n < u32::MAX,
                r@ == priced_from(self@.pricing, from, k as int, mints),
            decreases n - k,
        {
            let period: u32 = from + k;
            match self.period_pricing.get(&period) {
                Some(p) => {
                    let more: u64 = match p.mints.checked_add(mints) {
                        Some(sum) => sum,
                        None => u64::MAX,
                    };
                    let mut next = *p;
                    next.mints = more;
                    r.push((period, next));
                },
                None => {},
            }
            k += 1;
        }
        r
    }

    /// Opens the periods that come into sight with a block, and lists the
    /// periods whose price is to be worked out anew; see
    /// [`Dbs::finish_block_pricing`].
    pub fn process_block_pricing(
        &mut self,
        block_height: u32,
        current_period: u32,
        interval: u32,
    ) -> (r: Vec<(u32, PeriodPricing)>)
        requires
            current_period + FUTURE_PERIODS < u32::MAX,
            highest_or_zero(old(self)@.periods) < u32::MAX,
        ensures
            final(self)@ == periods_opened(old(self)@, block_height, current_period),
            r@ == to_reprice(old(self)@, block_height, current_period, interval),
    {
        let target: u32 = current_period + FUTURE_PERIODS - 1;
        let highest: u32 = match self.get_highest_minted_period() {
            Some(h) => h,
            None => 0,
        };
        let previous: u32 = if highest + 1 >= FUTURE_PERIODS {
            highest + 1 - FUTURE_PERIODS
        } else {
            0
        };
        self.mint_periods_up_to(target);
        let ghost opened = self@;
        if current_period > previous {
            let mut period: u32 = highest + 1;
            while period <= target
                invariant
                    highest + 1 <= period,
                    target == current_period + FUTURE_PERIODS - 1,
                    period <= target + 1 || period == highest + 1,
                    current_period + FUTURE_PERIODS < u32::MAX,
                    self@ == (DecisionsView {
                        pricing: seeded(
                            opened.pricing,
                            current_period,
                            block_height,
                            opened.genesis_p_period_sats,
                            highest + 1,
                            period as int,
                        ),
                        ..opened
                    }),
                decreases target + 1 - period,
            {
                let p_seed: u64 = self.compute_p_average(current_period);
                self.period_pricing.put(period, PeriodPricing::new_seeded(p_seed, block_height));
                period += 1;
            }
            proof {
                if highest >= target {
                    assert(seeded(
                        opened.pricing,
                        current_period,
                        block_height,
                        opened.genesis_p_period_sats,
                        highest + 1,
                        target + 1,
                    ) == opened.pricing);
                }
            }
            let end: u32 = if highest <= target {
                highest
            } else {
                target
            };
            if current_period <= end {
                self.list_priced(
                    current_period,
                    end + 1 - current_period,
                    (current_period - previous) as u64,
                )
            } else {
                Vec::new()
            }
        } else if self.any_period_due_for_reprice(block_height, interval, current_period) {
            self.list_priced(current_period, FUTURE_PERIODS, 0)
        } else {
            Vec::new()
        }
    }

    /// Sets the prices that were worked out anew.
    pub fn finish_block_pricing(&mut self, repriced: &Vec<(u32, PeriodPricing)>)
        ensures
            final(self)@ == (DecisionsView {
                pricing: with_prices(old(self)@.pricing, repriced@),
                ..old(self)@
            }),
    {
        let mut i: usize = 0;
        assert(repriced@.subrange(0, 0) =~= Seq::empty());
        while i < repriced.len()
            invariant
                i <= repriced@.len(),
                self@ == (DecisionsView {
                    pricing: with_prices(old(self)@.pricing, repriced@.subrange(0, i as int)),
                    ..old(self)@
                }),
            decreases repriced@.len() - i,
        {
            proof {
                assert(repriced@.subrange(0, i + 1).drop_last() =~= repriced@.subrange(
                    0,
                    i as int,
                ));
            }
            self.period_pricing.put(repriced[i].0, repriced[i].1);
            i += 1;
        }
        assert(repriced@.subrange(0, i as int) =~= repriced@);
    }

    /// Deletes the rows of the periods after one.
    pub fn delete_periods_above(&mut self, max_period: u32)
        ensures
            final(self)@ == (DecisionsView {
                periods: old(self)@.periods.restrict(Set::new(|p: u32| p <= max_period)),
                ..old(self)@
            }),
    {
        self.period_decisions.rows_facts();
        let ghost rows = self.period_decisions.rows();
        let ghost start = self.period_decisions@;
        let mut doomed: Vec<u32> = Vec::new();
        let mut i: usize = 0;
        while i < self.period_decisions.len()
            invariant
                i <= rows.len(),
                *self == *old(self),
                rows == self.period_decisions.rows(),
                forall|p: u32| #[trigger]
                    doomed@.contains(p) <==> p > max_period && exists|j: int|
                        0 <= j < i && (#[trigger] rows[j]).0 == p,
            decreases rows.len() - i,
        {
            let period: u32 = self.period_decisions.row(i).0;
            let ghost before = doomed@;
            if period > max_period {
                doomed.push(period);
            }
            proof {
                assert forall|p: u32| #[trigger] doomed@.contains(p) <==> p > max_period
                    && exists|j: int| 0 <= j < i + 1 && (#[trigger] rows[j]).0 == p by {
                    if before.contains(p) {
                        let k = choose|k: int| 0 <= k < before.len() && before[k] == p;
                        assert(doomed@[k] == p);
                        let j = choose|j: int| 0 <= j < i && (#[trigger] rows[j]).0 == p;
                        assert(0 <= j < i + 1);
                    }
                    if p == period && p > max_period {
                        assert(doomed@[doomed@.len() - 1] == p);
                        assert(rows[i as int].0 == p);
                    }
                }
            }
            i += 1;
        }
        let mut k: usize = 0;
        while k < doomed.len()
            invariant
                k <= doomed@.len(),
                start == old(self).period_decisions@,
                self@ == (DecisionsView { periods: self@.periods, ..old(self)@ }),
                forall|p: u32| #[trigger]
                    self.period_decisions@.dom().contains(p) <==> start.dom().contains(p)
                        && !exists|j: int| 0 <= j < k && (#[trigger] doomed@[j]) == p,
                forall|p: u32| #[trigger]
                    self.period_decisions@.dom().contains(p) ==> self.period_decisions@[p]
                        == start[p],
            decreases doomed@.len() - k,
        {
            let ghost before = self.period_decisions@;
            let _ = self.period_decisions.delete(&doomed[k]);
            proof {
                assert forall|p: u32| #[trigger]
                    self.period_decisions@.dom().contains(p) <==> start.dom().contains(p)
                        && !exists|j: int| 0 <= j < k + 1 && (#[trigger] doomed@[j]) == p by {
                    if exists|j: int| 0 <= j < k && (#[trigger] doomed@[j]) == p {
                        let j = choose|j: int| 0 <= j < k && (#[trigger] doomed@[j]) == p;
                        assert(0 <= j < k + 1);
                    }
                    if p == doomed@[k as int] {
                        assert(0 <= k < k + 1);
                    }
                }
            }
            k += 1;
        }
        proof {
            let expected = old(self)@.periods.restrict(Set::new(|p: u32| p <= max_period));
            assert forall|p: u32| self@.periods.dom().contains(p) <==> expected.dom().contains(
                p,
            ) by {
                if start.dom().contains(p) {
                    assert(has_key(rows, p));
                    let j = choose|j: int| row_has_key(rows, p, j);
                    assert(rows[j].0 == p);
                    if p > max_period {
                        assert(doomed@.contains(p));
                        let m = choose|m: int| 0 <= m < doomed@.len() && doomed@[m] == p;
                        assert(doomed@[m] == p);
                    } else {
                        if exists|j: int| 0 <= j < k && (#[trigger] doomed@[j]) == p {
                            assert(doomed@.contains(p));
                        }
                    }
                }
            }
            assert forall|p: u32| #[trigger] self@.periods.dom().contains(p) implies self@.periods[p]
                == expected[p] by {
                assert(self.period_decisions@.dom().contains(p));
                assert(expected.dom().contains(p));
            }
            assert(self@.periods.dom() =~= expected.dom());
            assert(self@.periods =~= expected);
        }
    }

    pub fn total_for(&self, period: u32, current_period: u32) -> (r: u64)
        ensures
            r == decisions_offered(period, current_period),
    {
        calculate_available_decisions(period, current_period)
    }

    /// The periods that offer decisions, with how many they offer.
    pub fn get_active_periods(&self, current_period: u32) -> (r: Vec<(u32, u64)>)
        requires
            current_period + FUTURE_PERIODS < u32::MAX,
        ensures
            r@ == Seq::new(
                FUTURE_PERIODS as nat,
                |k: int|
                    (
                        (current_period + k) as u32,
                        decisions_offered((current_period + k) as u32, current_period),
                    ),
            ),
    {
        let mut r: Vec<(u32, u64)> = Vec::new();
        let mut k: u32 = 0;
        while k < FUTURE_PERIODS
            invariant
                k <= FUTURE_PERIODS,
                current_period + FUTURE_PERIODS < u32::MAX,
                r@.len() == k,
                forall|j: int|
                    0 <= j < k ==> #[trigger] r@[j] == (
                        (current_period + j) as u32,
                        decisions_offered((current_period + j) as u32, current_period),
                    ),
            decreases FUTURE_PERIODS - k,
        {
            let period: u32 = current_period + k;
            let decisions: u64 = calculate_available_decisions(period, current_period);
            if decisions > 0 {
                r.push((period, decisions));
            }
            k += 1;
        }
        assert(r@ =~= Seq::new(
            FUTURE_PERIODS as nat,
            |k: int|
                (
                    (current_period + k) as u32,
                    decisions_offered((current_period + k) as u32, current_period),
                ),
        ));
        r
    }

    pub fn is_testing_mode(&self) -> (r: bool)
        ensures
            r == self@.config.is_blocks,
    {
        self.config.is_blocks
    }

    pub fn get_testing_blocks_per_period(&self) -> (r: u32)
        ensures
            r == self@.config.quantity,
    {
        self.config.quantity
    }

    pub fn get_config(&self) -> (r: &DecisionConfig)
        ensures
            *r == self@.config,
    {
        &self.config
    }

    pub fn period_to_string(&self, period_idx: u32) -> (r: String)
        ensures
            r@ == if self@.config.is_blocks {
                "Testing Period "@ + decimal(period_idx as nat)
            } else {
                period_name(period_idx)
            },
    {
        period_to_string(period_idx, &self.config)
    }

    pub fn is_period_settled(&self, decision_period: u32, current_period: u32) -> (r: bool)
        ensures
            r == settled(decision_period, current_period),
    {
        match decision_period.checked_add(7) {
            Some(p) => current_period > p,
            None => false,
        }
    }

    pub fn is_decision_settled(&self, decision_id: DecisionId, current_period: u32) -> (r: bool)
        ensures
            r == settled(decision_id.period(), current_period),
    {
        self.is_period_settled(decision_id.period_index(), current_period)
    }

    pub fn get_decision_state_history(&self, decision_id: DecisionId) -> (r: Option<
        &DecisionStateHistory,
    >)
        ensures
            match r {
                Some(h) => self@.histories.dom().contains(decision_id) && h@
                    == self@.histories[decision_id],
                None => !self@.histories.dom().contains(decision_id),
            },
    {
        self.decision_state_histories.get(&decision_id)
    }

    pub fn get_decision_current_state(&self, decision_id: DecisionId) -> (r: DecisionState)
        ensures
            r == state_of(self@, decision_id),
    {
        match self.get_decision_state_history(decision_id) {
            Some(h) => h.current_state(),
            None => DecisionState::Created,
        }
    }

    pub fn is_decision_in_voting(&self, decision_id: DecisionId) -> (r: bool)
        ensures
            r == (state_of(self@, decision_id) is Voting),
    {
        self.get_decision_current_state(decision_id) == DecisionState::Voting
    }

    fn decisions_needing_transition(
        &self,
        from_state: DecisionState,
        lag: u32,
        current_period: u32,
    ) -> (r: Vec<DecisionId>)
        requires
            lag <= 1,
        ensures
            r@ == transition_list(
                rows_of(self@.histories),
                from_state,
                lag,
                current_period,
            ),
    {
        self.decision_state_histories.rows_facts();
        let ghost table = self.decision_state_histories.rows();
        let ghost rows = rows_of(self@.histories);
        proof {
            lemma_rows_mapped(table, |h: DecisionStateHistory| h@);
        }
        let mut r: Vec<DecisionId> = Vec::new();
        let mut i: usize = 0;
        assert(rows.subrange(0, 0) =~= Seq::empty());
        while i < self.decision_state_histories.len()
            invariant
                i <= rows.len(),
                lag <= 1,
                table == self.decision_state_histories.rows(),
                rows == rows_mapped(table, |h: DecisionStateHistory| h@),
                r@ == transition_list(
                    rows.subrange(0, i as int),
                    from_state,
                    lag,
                    current_period,
                ),
            decreases rows.len() - i,
        {
            proof {
                assert(rows.subrange(0, i + 1).drop_last() =~= rows.subrange(0, i as int));
            }
            let row = self.decision_state_histories.row(i);
            if row.1.current_state() == from_state && current_period > row.0.period_index() + lag {
                r.push(row.0);
            }
            i += 1;
        }
        assert(rows.subrange(0, i as int) =~= rows);
        r
    }

    /// The claimed decisions whose period is over.
    pub fn get_claimed_decisions_needing_voting(&self, current_period: u32) -> (r: Vec<DecisionId>)
        ensures
            r@ == transition_list(
                rows_of(self@.histories),
                DecisionState::Claimed,
                0,
                current_period,
            ),
    {
        self.decisions_needing_transition(DecisionState::Claimed, 0, current_period)
    }

    /// The decisions in voting whose voting period is over.
    pub fn get_voting_decisions_needing_resolution(&self, current_period: u32) -> (r: Vec<
        DecisionId,
    >)
        ensures
            r@ == transition_list(
                rows_of(self@.histories),
                DecisionState::Voting,
                1,
                current_period,
            ),
    {
        self.decisions_needing_transition(DecisionState::Voting, 1, current_period)
    }

    /// The entries of the settled periods.
    pub fn get_settled_decisions(&self, current_period: u32) -> (r: Vec<DecisionEntry>)
        ensures
            r@ == settled_entries(self.period_decisions.rows(), current_period),
    {
        let ghost rows = self.period_decisions.rows();
        let mut r: Vec<DecisionEntry> = Vec::new();
        let mut i: usize = 0;
        assert(rows.subrange(0, 0) =~= Seq::empty());
        while i < self.period_decisions.len()
            invariant
                i <= rows.len(),
                rows == self.period_decisions.rows(),
                r@ == settled_entries(rows.subrange(0, i as int), current_period),
            decreases rows.len() - i,
        {
            proof {
                assert(rows.subrange(0, i + 1).drop_last() =~= rows.subrange(0, i as int));
            }
            let row = self.period_decisions.row(i);
            if self.is_period_settled(row.0, current_period) {
                let ghost before = r@;
                let ghost values = row.1.rows();
                let mut k: usize = 0;
                assert(values.subrange(0, 0) =~= Seq::empty());
                assert(before + all_entries(values.subrange(0, 0)) =~= before);
                while k < row.1.len()
                    invariant
                        k <= values.len(),
                        values == row.1.rows(),
                        r@ == before + all_entries(values.subrange(0, k as int)),
                    decreases values.len() - k,
                {
                    assert(values.subrange(0, k + 1).drop_last() =~= values.subrange(0, k as int));
                    row.1.row(k).1.push_all(&mut r);
                    k += 1;
                    assert(r@ =~= before + all_entries(values.subrange(0, k as int)));
                }
                assert(values.subrange(0, k as int) =~= values);
            }
            i += 1;
        }
        assert(rows.subrange(0, i as int) =~= rows);
        r
    }

    fn is_decision_claimed(&self, decision_id: DecisionId) -> (r: bool)
        ensures
            r == is_claimed(self@, decision_id),
    {
        match self.period_decisions.get(&decision_id.period_index()) {
            None => false,
            Some(entries) => match entries.get(&decision_id) {
                None => false,
                Some(claims) => {
                    assert(entries_view(entries@)[decision_id] == claims@);
                    claims.is_claimed()
                },
            },
        }
    }

    /// Whether a decision can be claimed.
    pub fn validate_decision_claim(&self, decision_id: DecisionId, current_period: u32) -> (r:
        Result<(), Error>)
        requires
            current_period + FUTURE_PERIODS < u32::MAX,
        ensures
            match r {
                Ok(()) => claim_problem(self@, decision_id, current_period) is None,
                Err(e) => claim_problem(self@, decision_id, current_period) == Some(e),
            },
    {
        let period_index: u32 = decision_id.period_index();
        let decision_index: u32 = decision_id.decision_index();
        if self.is_decision_settled(decision_id, current_period) {
            return Err(
                Error::DecisionNotAvailable {
                    decision_id,
                    reason: Reason::PeriodSettled(period_index),
                },
            );
        }
        if self.is_decision_in_voting(decision_id) {
            return Err(
                Error::DecisionNotAvailable {
                    decision_id,
                    reason: Reason::DecisionInVoting(decision_id),
                },
            );
        }
        if period_index > current_period + FUTURE_PERIODS - 1 {
            return Err(
                Error::DecisionNotAvailable {
                    decision_id,
                    reason: Reason::PeriodTooFarAhead {
                        period: period_index,
                        last: current_period + FUTURE_PERIODS - 1,
                    },
                },
            );
        }
        if decision_id.is_standard() {
            if period_index < current_period {
                return Err(
                    Error::DecisionNotAvailable {
                        decision_id,
                        reason: Reason::PeriodNotActive {
                            period: period_index,
                            first: current_period,
                            last: current_period + FUTURE_PERIODS - 1,
                        },
                    },
                );
            }
            match self.period_pricing.get(&period_index) {
                None => {
                    return Err(
                        Error::DecisionNotAvailable {
                            decision_id,
                            reason: Reason::NoPricing(period_index),
                        },
                    );
                },
                Some(pricing) => {
                    if !slot_unlocked(decision_index, pricing.mints) {
                        return Err(
                            Error::DecisionNotAvailable {
                                decision_id,
                                reason: Reason::NotUnlocked {
                                    index: decision_index,
                                    period: period_index,
                                    mints: pricing.mints,
                                },
                            },
                        );
                    }
                },
            }
        }
        if self.is_decision_claimed(decision_id) {
            return Err(Error::DecisionAlreadyClaimed { decision_id });
        }
        Ok(())
    }

    /// Claims a decision. Where it has an entry, it gets another one.
    pub fn claim_decision(
        &mut self,
        decision_id: DecisionId,
        decision: Decision,
        claiming_txid: Txid,
        current_height: Option<u32>,
    ) -> (r: Result<(), Error>)
        ensures
            ({
                let block_height = match current_height {
                    Some(h) => h,
                    None => 0,
                };
                match r {
                    Ok(()) => claimed(
                        old(self)@,
                        decision_id,
                        decision,
                        claiming_txid,
                        block_height,
                    ) == Ok::<DecisionsView, Error>(final(self)@),
                    Err(e) => {
                        &&& claimed(
                            old(self)@,
                            decision_id,
                            decision,
                            claiming_txid,
                            block_height,
                        ) == Err::<DecisionsView, Error>(e)
                        &&& *final(self) == *old(self)
                    },
                }
            }),
    {
        let period_index: u32 = decision_id.period_index();
        let pricing = match self.period_pricing.get(&period_index) {
            None => {
                if decision_id.is_standard() {
                    return Err(
                        Error::InvalidTransaction { reason: Reason::NoPricing(period_index) },
                    );
                }
                None
            },
            Some(pricing) => Some(*pricing),
        };
        let ghost periods = self.period_decisions@;
        let mut entries: Table<DecisionId, Claims> = match self.period_decisions.take(
            &period_index,
        ) {
            Some(entries) => entries,
            None => Table::new(),
        };
        let ghost before = entries@;
        assert(entries_view(before) =~= entries_of(old(self)@, period_index));
        let new_entry = DecisionEntry { decision_id, decision: Some(decision), claiming_txid };
        let claims = match entries.take(&decision_id) {
            Some(claims) => {
                let mut claims = claims;
                assert(entries_view(before)[decision_id] == claims@);
                claims.put(new_entry);
                claims
            },
            None => Claims::new(new_entry),
        };
        proof {
            lemma_entries_view(before, decision_id, claims);
            if !before.dom().contains(decision_id) {
                assert(before.remove(decision_id) =~= before);
            }
        }
        entries.put(decision_id, claims);
        proof {
            lemma_periods_view(periods, period_index, entries);
        }
        self.period_decisions.put(period_index, entries);
        let block_height: u32 = match current_height {
            Some(h) => h,
            None => 0,
        };
        let history = DecisionStateHistory::new(block_height);
        proof {
            lemma_histories_view(self.decision_state_histories@, decision_id, history);
        }
        self.decision_state_histories.put(decision_id, history);
        if decision_id.is_standard() {
            match pricing {
                None => {},
                Some(before) => {
                    let claimed: u64 = match before.claimed.checked_add(1) {
                        Some(n) => n,
                        None => u64::MAX,
                    };
                    self.period_pricing.put(period_index, PeriodPricing { claimed, ..before });
                },
            }
        }
        Ok(())
    }

    /// The entry of a decision, the first if there are more.
    pub fn get_decision_entry(&self, decision_id: DecisionId) -> (r: Option<&DecisionEntry>)
        ensures
            match r {
                Some(entry) => entries_of(self@, decision_id.period()).dom().contains(decision_id)
                    && *entry == entries_of(self@, decision_id.period())[decision_id][0],
                None => !entries_of(self@, decision_id.period()).dom().contains(decision_id),
            },
    {
        match self.period_decisions.get(&decision_id.period_index()) {
            None => None,
            Some(entries) => match entries.get(&decision_id) {
                None => None,
                Some(claims) => {
                    assert(entries_view(entries@)[decision_id] == claims@);
                    Some(&claims.first)
                },
            },
        }
    }

    /// The decisions of a period that can be claimed.
    pub fn get_available_decisions_in_period(
        &self,
        period_index: u32,
        current_period: u32,
    ) -> (r: Result<Vec<DecisionId>, Error>)
        requires
            self@.pricing.dom().contains(period_index) ==> self@.pricing[period_index].mints
                * SLOTS_PER_TIER_PER_MINT * TIER_COUNT <= u64::MAX,
        ensures
            if decisions_offered(period_index, current_period) == 0
                || !self@.pricing.dom().contains(period_index) || self@.pricing[period_index].mints
                == 0 {
                r is Ok && r->Ok_0@.len() == 0
            } else {
                let mints = self@.pricing[period_index].mints;
                let n = mints * SLOTS_PER_TIER_PER_MINT * TIER_COUNT;
                if period_index > MAX_PERIOD_INDEX {
                    r is Err && r->Err_0 == (Error::InvalidDecisionId {
                        reason: Reason::PeriodAboveMaximum {
                            period: period_index,
                            maximum: MAX_PERIOD_INDEX,
                        },
                    })
                } else if nth_unlocked(n - 1, mints)
                    > MAX_DECISION_INDEX {
                    r is Err && r->Err_0 == (Error::InvalidDecisionId {
                        reason: Reason::IndexAboveMaximum {
                            index: (MAX_DECISION_INDEX + 1) as u32,
                            maximum: MAX_DECISION_INDEX,
                        },
                    })
                } else {
                    r is Ok && r->Ok_0@ == available_first(self@, period_index, mints, n as int)
                }
            },
    {
        if self.total_for(period_index, current_period) == 0 {
            return Ok(Vec::new());
        }
        let pricing = match self.period_pricing.get(&period_index) {
            None => return Ok(Vec::new()),
            Some(pricing) => *pricing,
        };
        let mints: u64 = pricing.mints;
        let per_tier: u64 = mints * SLOTS_PER_TIER_PER_MINT;
        let mut available: Vec<DecisionId> = Vec::new();
        let mut tier: u64 = 0;
        proof {
            if mints > 0 {
                lemma_last_unlocked(mints);
            }
        }
        while tier < TIER_COUNT
            invariant
                tier <= TIER_COUNT,
                mints * SLOTS_PER_TIER_PER_MINT * TIER_COUNT <= u64::MAX,
                per_tier == mints * SLOTS_PER_TIER_PER_MINT,
                self@.pricing.dom().contains(period_index),
                self@.pricing[period_index].mints == mints,
                decisions_offered(period_index, current_period) != 0,
                available@ == available_first(
                    self@,
                    period_index,
                    mints,
                    (tier * per_tier) as int,
                ),
                tier * per_tier <= u64::MAX,
                mints > 0 ==> nth_unlocked(
                    mints * SLOTS_PER_TIER_PER_MINT * TIER_COUNT - 1,
                    mints,
                ) == 400 + per_tier - 1,
                tier > 0 && mints > 0 ==> period_index
                    <= MAX_PERIOD_INDEX,
                tier > 0 && mints > 0 ==> (tier - 1) * SLOTS_PER_TIER + per_tier - 1
                    <= MAX_DECISION_INDEX,
            decreases TIER_COUNT - tier,
        {
            let mut pos: u64 = 0;
            while pos < per_tier
                invariant
                    tier < TIER_COUNT,
                    pos <= per_tier,
                    mints * SLOTS_PER_TIER_PER_MINT * TIER_COUNT <= u64::MAX,
                    per_tier == mints * SLOTS_PER_TIER_PER_MINT,
                    self@.pricing.dom().contains(period_index),
                    self@.pricing[period_index].mints == mints,
                    decisions_offered(period_index, current_period) != 0,
                    available@ == available_first(
                        self@,
                        period_index,
                        mints,
                        tier * per_tier + pos,
                    ),
                    tier * per_tier <= u64::MAX,
                    mints > 0 ==> nth_unlocked(
                        mints * SLOTS_PER_TIER_PER_MINT * TIER_COUNT - 1,
                        mints,
                    ) == 400 + per_tier - 1,
                    (tier > 0 || pos > 0) && mints > 0 ==> period_index
                        <= MAX_PERIOD_INDEX,
                    pos > 0 ==> tier * SLOTS_PER_TIER + pos - 1
                        <= MAX_DECISION_INDEX,
                decreases per_tier - pos,
            {
                proof {
                    lemma_nth(tier as int, pos as int, per_tier as int);
                }
                let index: u64 = tier * SLOTS_PER_TIER + pos;
                if period_index > MAX_PERIOD_INDEX {
                    return Err(
                        Error::InvalidDecisionId {
                            reason: Reason::PeriodAboveMaximum {
                                period: period_index,
                                maximum: MAX_PERIOD_INDEX,
                            },
                        },
                    );
                }
                if index > MAX_DECISION_INDEX as u64 {
                    return Err(
                        Error::InvalidDecisionId {
                            reason: Reason::IndexAboveMaximum {
                                index: index as u32,
                                maximum: MAX_DECISION_INDEX,
                            },
                        },
                    );
                }
                match DecisionId::new(true, period_index, index as u32) {
                    Err(e) => return Err(e),
                    Ok(id) => {
                        proof {
                            let c = standard_id(period_index, index as u32);
                            assert(id.standard() && id.period() == period_index && id.index()
                                == index as u32);
                            decision_id_is_its_parts(id, c);
                        }
                        if !self.is_decision_claimed(id) {
                            available.push(id);
                        }
                    },
                }
                pos += 1;
            }
            proof {
                assert((tier + 1) * per_tier == tier * per_tier + per_tier) by (nonlinear_arith);
                assert((tier + 1) * per_tier <= 5 * per_tier) by (nonlinear_arith)
                    requires
                        tier + 1 <= 5,
                ;
            }
            tier += 1;
        }
        proof {
            assert(mints * SLOTS_PER_TIER_PER_MINT * TIER_COUNT == tier * per_tier)
                by (nonlinear_arith)
                requires
                    per_tier == mints * SLOTS_PER_TIER_PER_MINT,
                    tier == TIER_COUNT,
            ;
            if mints == 0 {
                assert(tier * per_tier == 0) by (nonlinear_arith)
                    requires
                        per_tier == 0,
                ;
            }
        }
        Ok(available)
    }

    /// The claimed entries of a period.
    pub fn get_claimed_decisions_in_period(&self, period_index: u32) -> (r: Vec<DecisionEntry>)
        ensures
            if self.period_decisions@.dom().contains(period_index) {
                r@ == claimed_entries(self.period_decisions@[period_index].rows())
            } else {
                r@.len() == 0
            },
    {
        let mut r: Vec<DecisionEntry> = Vec::new();
        match self.period_decisions.get(&period_index) {
            Some(entries) => {
                push_claimed(entries, &mut r);
                assert(r@ =~= claimed_entries(entries.rows()));
            },
            None => {},
        }
        r
    }

    fn count_claimed(&self, period_index: u32, standard_only: bool) -> (r: u64)
        ensures
            r == if self.period_decisions@.dom().contains(period_index) {
                claimed_count(self.period_decisions@[period_index].rows(), standard_only)
            } else {
                0
            },
    {
        match self.period_decisions.get(&period_index) {
            None => 0,
            Some(entries) => {
                let ghost rows = entries.rows();
                let mut count: u64 = 0;
                let mut i: usize = 0;
                assert(rows.subrange(0, 0) =~= Seq::empty());
                while i < entries.len()
                    invariant
                        i <= rows.len(),
                        rows == entries.rows(),
                        count <= i,
                        count == claimed_count(rows.subrange(0, i as int), standard_only),
                    decreases rows.len() - i,
                {
                    proof {
                        assert(rows.subrange(0, i + 1).drop_last() =~= rows.subrange(0, i as int));
                    }
                    let row = entries.row(i);
                    if row.1.is_claimed() && (!standard_only || row.0.is_standard()) {
                        count = count + 1;
                    }
                    i += 1;
                }
                assert(rows.subrange(0, i as int) =~= rows);
                count
            },
        }
    }

    pub fn claimed_count_in_period(&self, period_index: u32) -> (r: u64)
        ensures
            r == if self.period_decisions@.dom().contains(period_index) {
                claimed_count(self.period_decisions@[period_index].rows(), false)
            } else {
                0
            },
    {
        self.count_claimed(period_index, false)
    }

    pub fn get_standard_claimed_count_in_period(&self, period_index: u32) -> (r: u64)
        ensures
            r == if self.period_decisions@.dom().contains(period_index) {
                claimed_count(self.period_decisions@[period_index].rows(), true)
            } else {
                0
            },
    {
        self.count_claimed(period_index, true)
    }

    pub fn get_listing_fee_info(&self, period_index: u32) -> (r: Option<PeriodPricing>)
        ensures
            match r {
                Some(p) => self@.pricing.dom().contains(period_index) && p
                    == self@.pricing[period_index],
                None => !self@.pricing.dom().contains(period_index),
            },
    {
        self.get_period_pricing(period_index)
    }

    /// What the fee for claiming a decision is worked out from: the price and
    /// the mints of its period, and its index.
    pub fn fee_basis_for_decision_id(&self, decision_id: DecisionId) -> (r: Result<
        (u64, u64, u32),
        Error,
    >)
        ensures
            ({
                let period = decision_id.period();
                r == if self@.pricing.dom().contains(period) {
                    Ok(
                        (
                            self@.pricing[period].p_period,
                            self@.pricing[period].mints,
                            decision_id.index(),
                        ),
                    )
                } else {
                    Err::<(u64, u64, u32), Error>(
                        Error::InvalidTransaction { reason: Reason::NoPricing(period) },
                    )
                }
            }),
    {
        match self.period_pricing.get(&decision_id.period_index()) {
            None => Err(
                Error::InvalidTransaction { reason: Reason::NoPricing(decision_id.period_index()) },
            ),
            Some(p) => Ok((p.p_period, p.mints, decision_id.decision_index())),
        }
    }

    /// The claimed entries of all periods.
    pub fn get_all_claimed_decisions(&self) -> (r: Vec<DecisionEntry>)
        ensures
            r@ == all_claimed_entries(self.period_decisions.rows()),
    {
        let ghost rows = self.period_decisions.rows();
        let mut r: Vec<DecisionEntry> = Vec::new();
        let mut i: usize = 0;
        assert(rows.subrange(0, 0) =~= Seq::empty());
        while i < self.period_decisions.len()
            invariant
                i <= rows.len(),
                rows == self.period_decisions.rows(),
                r@ == all_claimed_entries(rows.subrange(0, i as int)),
            decreases rows.len() - i,
        {
            proof {
                assert(rows.subrange(0, i + 1).drop_last() =~= rows.subrange(0, i as int));
            }
            push_claimed(&self.period_decisions.row(i).1, &mut r);
            i += 1;
        }
        assert(rows.subrange(0, i as int) =~= rows);
        r
    }

    /// The periods with decisions in voting, in order: the period, how many
    /// decisions are in voting, and how many decisions a period has.
    pub fn get_voting_periods(&self) -> (r: Vec<(u32, u64, u64)>)
        ensures
            r@ == voting_list(self.decision_state_histories.rows(), 128),
    {
        let ghost rows = self.decision_state_histories.rows();
        let mut r: Vec<(u32, u64, u64)> = Vec::new();
        let mut period: u32 = 0;
        while period < 128
            invariant
                period <= 128,
                rows == self.decision_state_histories.rows(),
                r@ == voting_list(rows, period as int),
            decreases 128 - period,
        {
            let mut count: u64 = 0;
            let mut i: usize = 0;
            assert(rows.subrange(0, 0) =~= Seq::empty());
            while i < self.decision_state_histories.len()
                invariant
                    i <= rows.len(),
                    rows == self.decision_state_histories.rows(),
                    count <= i,
                    count == voting_count(rows.subrange(0, i as int), period),
                decreases rows.len() - i,
            {
                proof {
                    assert(rows.subrange(0, i + 1).drop_last() =~= rows.subrange(0, i as int));
                }
                let row = self.decision_state_histories.row(i);
                if row.1.current_state() == DecisionState::Voting && row.0.period_index()
                    == period {
                    count = count + 1;
                }
                i += 1;
            }
            assert(rows.subrange(0, i as int) =~= rows);
            if count > 0 {
                r.push((period, count, INITIAL_DECISIONS_PER_PERIOD));
            }
            period += 1;
        }
        r
    }

    /// The periods that offer decisions, and those with decisions in voting.
    pub fn get_period_summary(&self, current_period: u32) -> (r: (
        Vec<(u32, u64)>,
        Vec<(u32, u64)>,
    ))
        requires
            current_period + FUTURE_PERIODS < u32::MAX,
        ensures
            r.0@ == Seq::new(
                FUTURE_PERIODS as nat,
                |k: int|
                    (
                        (current_period + k) as u32,
                        decisions_offered((current_period + k) as u32, current_period),
                    ),
            ),
            r.1@ == voting_list(self.decision_state_histories.rows(), 128).map_values(
                |v: (u32, u64, u64)| (v.0, v.1),
            ),
    {
        let active = self.get_active_periods(current_period);
        let full = self.get_voting_periods();
        let mut voting: Vec<(u32, u64)> = Vec::new();
        let mut i: usize = 0;
        while i < full.len()
            invariant
                i <= full@.len(),
                voting@.len() == i,
                forall|j: int| 0 <= j < i ==> #[trigger] voting@[j] == (full@[j].0, full@[j].1),
            decreases full@.len() - i,
        {
            voting.push((full[i].0, full[i].1));
            i += 1;
        }
        assert(voting@ =~= full@.map_values(|v: (u32, u64, u64)| (v.0, v.1)));
        (active, voting)
    }

    /// Takes a claim back: the first entry of a decision goes. The history stays:
    /// a rollback takes it back.
    pub fn revert_decision_claim(&mut self, decision_id: DecisionId)
        ensures
            final(self)@ == (DecisionsView {
                periods: without_entry(old(self)@.periods, decision_id),
                ..old(self)@
            }),
    {
        let period_index: u32 = decision_id.period_index();
        let ghost periods = self.period_decisions@;
        let found = match self.period_decisions.get(&period_index) {
            None => false,
            Some(entries) => entries.contains(&decision_id),
        };
        if !found {
            return;
        }
        match self.period_decisions.take(&period_index) {
            None => {},
            Some(entries) => {
                let mut entries = entries;
                let ghost before = entries@;
                assert(entries_view(before) == old(self)@.periods[period_index]);
                match entries.take(&decision_id) {
                    None => {},
                    Some(claims) => {
                        assert(entries_view(before)[decision_id] == claims@);
                        match claims.without_first() {
                            None => {
                                proof {
                                    lemma_entries_view(before, decision_id, claims);
                                }
                            },
                            Some(rest) => {
                                proof {
                                    lemma_entries_view(before, decision_id, rest);
                                }
                                entries.put(decision_id, rest);
                                assert(entries@.dom().contains(decision_id));
                            },
                        }
                    },
                }
                proof {
                    lemma_periods_view(periods, period_index, entries);
                    lemma_entries_empty(entries@);
                }
                if !entries.is_empty() {
                    self.period_decisions.put(period_index, entries);
                }
            },
        }
    }

    pub fn transition_decision_to_voting(
        &mut self,
        decision_id: DecisionId,
        block_height: u32,
    ) -> (r: Result<(), Error>)
        ensures
            if !old(self)@.histories.dom().contains(decision_id) {
                r == Err::<(), Error>(
                    Error::InvalidDecisionId { reason: Reason::NoStateHistory(decision_id) },
                ) && final(self)@ == old(self)@
            } else if !current_of(old(self)@.histories[decision_id]).may_become(
                DecisionState::Voting,
            ) {
                r == Err::<(), Error>(
                    Error::InvalidDecisionState {
                        reason: Reason::CannotStartVoting(
                            current_of(old(self)@.histories[decision_id]),
                        ),
                    },
                ) && final(self)@ == old(self)@
            } else {
                r is Ok && final(self)@ == (DecisionsView {
                    histories: old(self)@.histories.insert(
                        decision_id,
                        old(self)@.histories[decision_id].push(
                            (DecisionState::Voting, block_height, None),
                        ),
                    ),
                    ..old(self)@
                })
            },
    {
        let ghost m = self.decision_state_histories@;
        match self.decision_state_histories.take(&decision_id) {
            None => {
                assert(self.decision_state_histories@ =~= m);
                Err(Error::InvalidDecisionId { reason: Reason::NoStateHistory(decision_id) })
            },
            Some(history) => {
                let mut history = history;
                let r = history.transition_to_voting(block_height);
                proof {
                    lemma_histories_view(m, decision_id, history);
                    assert(m.remove(decision_id).insert(decision_id, history) =~= m.insert(
                        decision_id,
                        history,
                    ));
                }
                self.decision_state_histories.put(decision_id, history);
                assert(r is Err ==> self@.histories =~= old(self)@.histories);
                r
            },
        }
    }

    pub fn transition_decision_to_resolved(
        &mut self,
        decision_id: DecisionId,
        block_height: u32,
        consensus_outcome: Real,
    ) -> (r: Result<(), Error>)
        ensures
            if !old(self)@.histories.dom().contains(decision_id) {
                r == Err::<(), Error>(
                    Error::InvalidDecisionId { reason: Reason::NoStateHistory(decision_id) },
                ) && final(self)@ == old(self)@
            } else if !current_of(old(self)@.histories[decision_id]).may_become(
                DecisionState::Resolved,
            ) {
                r == Err::<(), Error>(
                    Error::InvalidDecisionState {
                        reason: Reason::CannotResolve(
                            current_of(old(self)@.histories[decision_id]),
                        ),
                    },
                ) && final(self)@ == old(self)@
            } else if consensus_outcome.less(minus_one()) {
                r == Err::<(), Error>(
                    Error::InvalidDecisionState {
                        reason: Reason::InvalidOutcome(consensus_outcome),
                    },
                ) && final(self)@ == old(self)@
            } else {
                r is Ok && final(self)@ == (DecisionsView {
                    histories: old(self)@.histories.insert(
                        decision_id,
                        old(self)@.histories[decision_id].push(
                            (DecisionState::Resolved, block_height, Some(consensus_outcome)),
                        ),
                    ),
                    ..old(self)@
                })
            },
    {
        let ghost m = self.decision_state_histories@;
        match self.decision_state_histories.take(&decision_id) {
            None => {
                assert(self.decision_state_histories@ =~= m);
                Err(Error::InvalidDecisionId { reason: Reason::NoStateHistory(decision_id) })
            },
            Some(history) => {
                let mut history = history;
                let r = history.transition_to_resolved(consensus_outcome, block_height);
                proof {
                    lemma_histories_view(m, decision_id, history);
                    assert(m.remove(decision_id).insert(decision_id, history) =~= m.insert(
                        decision_id,
                        history,
                    ));
                }
                self.decision_state_histories.put(decision_id, history);
                assert(r is Err ==> self@.histories =~= old(self)@.histories);
                r
            },
        }
    }

    fn purge_entry(&mut self, decision_id: DecisionId)
        ensures
            final(self)@ == (DecisionsView {
                periods: purged(old(self)@.periods, decision_id),
                ..old(self)@
            }),
            final(self).decision_state_histories == old(self).decision_state_histories,
    {
        let period_index: u32 = decision_id.period_index();
        let ghost periods = self.period_decisions@;
        match self.period_decisions.take(&period_index) {
            None => {
                assert(self.period_decisions@ =~= periods);
            },
            Some(entries) => {
                let mut entries = entries;
                let ghost before = entries@;
                assert(entries_view(before) == old(self)@.periods[period_index]);
                let _ = entries.delete(&decision_id);
                proof {
                    assert(entries@ =~= before.remove(decision_id));
                    assert(entries_view(entries@) =~= entries_view(before).remove(decision_id));
                    lemma_periods_view(periods, period_index, entries);
                    lemma_entries_empty(entries@);
                }
                if !entries.is_empty() {
                    self.period_decisions.put(period_index, entries);
                }
            },
        }
    }

    /// Takes back what happened to decisions above a height. A decision that
    /// was claimed above it is unclaimed.
    pub fn rollback_decision_states_to_height(&mut self, height: u32)
        ensures
            final(self)@ == (DecisionsView {
                histories: old(self)@.histories.map_values(
                    |h: Seq<HistoryEntry>| up_to_height(h, height),
                ),
                periods: all_purged(
                    old(self)@.periods,
                    unclaimed_by(rows_of(old(self)@.histories), height),
                ),
                ..old(self)@
            }),
    {
        let ghost rows = self.decision_state_histories.rows();
        self.decision_state_histories.rows_facts();
        let ghost views = rows_of(self@.histories);
        proof {
            lemma_rows_mapped(rows, |h: DecisionStateHistory| h@);
        }
        let mut unclaimed: Vec<DecisionId> = Vec::new();
        let mut next: Table<DecisionId, DecisionStateHistory> = Table::new();
        let mut i: usize = 0;
        assert(views.subrange(0, 0) =~= Seq::empty());
        while i < self.decision_state_histories.len()
            invariant
                i <= rows.len(),
                *self == *old(self),
                rows == self.decision_state_histories.rows(),
                views == rows_mapped(rows, |h: DecisionStateHistory| h@),
                unclaimed@ == unclaimed_by(views.subrange(0, i as int), height),
                forall|j: int|
                    0 <= j < rows.len() ==> self.decision_state_histories@.dom().contains(
                        (#[trigger] rows[j]).0,
                    ) && self.decision_state_histories@[rows[j].0] == rows[j].1,
                forall|id: DecisionId| #[trigger]
                    next@.dom().contains(id) <==> exists|j: int|
                        0 <= j < i && (#[trigger] rows[j]).0 == id,
                forall|id: DecisionId| #[trigger]
                    next@.dom().contains(id) ==> next@[id]@ == up_to_height(
                        self.decision_state_histories@[id]@,
                        height,
                    ),
            decreases rows.len() - i,
        {
            proof {
                assert(views.subrange(0, i + 1).drop_last() =~= views.subrange(0, i as int));
            }
            let row = self.decision_state_histories.row(i);
            let was_created = row.1.current_state() == DecisionState::Created;
            let mut history = copy_history(&row.1);
            history.rollback_to_height(height);
            if !was_created && history.current_state() == DecisionState::Created {
                unclaimed.push(row.0);
            }
            let ghost before = next@;
            next.put(row.0, history);
            proof {
                assert forall|id: DecisionId| #[trigger] next@.dom().contains(id) <==> exists|j: int|
                    0 <= j < i + 1 && (#[trigger] rows[j]).0 == id by {
                    if before.dom().contains(id) {
                        let j = choose|j: int| 0 <= j < i && (#[trigger] rows[j]).0 == id;
                        assert(0 <= j < i + 1);
                    }
                    if id == row.0 {
                        assert(rows[i as int].0 == id);
                    }
                }
            }
            i += 1;
        }
        assert(views.subrange(0, i as int) =~= views);
        proof {
            let expected = self@.histories.map_values(
                |h: Seq<HistoryEntry>| up_to_height(h, height),
            );
            let got = histories_view(next@);
            assert forall|id: DecisionId| got.dom().contains(id) <==> expected.dom().contains(id) by {
                if self.decision_state_histories@.dom().contains(id) {
                    assert(has_key(rows, id));
                    let j = choose|j: int| row_has_key(rows, id, j);
                    assert(rows[j].0 == id);
                }
            }
            assert(got =~= expected);
        }
        self.decision_state_histories = next;
        let ghost start = self@;
        let mut k: usize = 0;
        assert(unclaimed@.subrange(0, 0) =~= Seq::empty());
        while k < unclaimed.len()
            invariant
                k <= unclaimed@.len(),
                self@ == (DecisionsView {
                    periods: all_purged(start.periods, unclaimed@.subrange(0, k as int)),
                    ..start
                }),
            decreases unclaimed@.len() - k,
        {
            proof {
                assert(unclaimed@.subrange(0, k + 1).drop_last() =~= unclaimed@.subrange(
                    0,
                    k as int,
                ));
            }
            self.purge_entry(unclaimed[k]);
            k += 1;
        }
        assert(unclaimed@.subrange(0, k as int) =~= unclaimed@);
    }

    pub fn get_available_decisions(&self, period: u32, current_period: u32) -> (r: u64)
        ensures
            r == decisions_offered(period, current_period),
    {
        calculate_available_decisions(period, current_period)
    }
}

fn copy_history(history: &DecisionStateHistory) -> (r: DecisionStateHistory)
    ensures
        r@ == history@,
{
    DecisionStateHistory { state_history: to_vec(history.state_history.as_slice()) }
}

fn push_claimed(entries: &Table<DecisionId, Claims>, list: &mut Vec<DecisionEntry>)
    ensures
        final(list)@ == old(list)@ + claimed_entries(entries.rows()),
{
    let ghost rows = entries.rows();
    let mut i: usize = 0;
    assert(rows.subrange(0, 0) =~= Seq::empty());
    assert(list@ =~= old(list)@ + claimed_entries(rows.subrange(0, 0)));
    while i < entries.len()
        invariant
            i <= rows.len(),
            rows == entries.rows(),
            list@ == old(list)@ + claimed_entries(rows.subrange(0, i as int)),
        decreases rows.len() - i,
    {
        proof {
            assert(rows.subrange(0, i + 1).drop_last() =~= rows.subrange(0, i as int));
        }
        entries.row(i).1.push_claimed(list);
        i += 1;
        assert(list@ =~= old(list)@ + claimed_entries(rows.subrange(0, i as int)));
    }
    assert(rows.subrange(0, i as int) =~= rows);
}

proof fn lemma_nth(tier: int, pos: int, per_tier: int)
    requires
        0 <= tier,
        0 <= pos < per_tier,
    ensures
        (tier * per_tier + pos) / per_tier == tier,
        (tier * per_tier + pos) % per_tier == pos,
{
    assert((tier * per_tier + pos) / per_tier == tier && (tier * per_tier + pos) % per_tier == pos)
        by (nonlinear_arith)
        requires
            0 <= tier,
            0 <= pos < per_tier,
    ;
}

proof fn lemma_last_unlocked(mints: u64)
    requires
        0 < mints,
    ensures
        nth_unlocked(mints * SLOTS_PER_TIER_PER_MINT * TIER_COUNT - 1, mints) == 400 + mints
            * SLOTS_PER_TIER_PER_MINT - 1,
{
    let per_tier = mints * SLOTS_PER_TIER_PER_MINT;
    lemma_nth(4, per_tier - 1, per_tier);
    assert(per_tier * TIER_COUNT - 1 == 4 * per_tier + (per_tier - 1)) by (nonlinear_arith)
        requires
            TIER_COUNT == 5,
    ;
}

/// Taking a claim back undoes it for the period: its entries are as before, if
/// there were any.
pub proof fn reverting_undoes_claiming(
    view: DecisionsView,
    decision_id: DecisionId,
    decision: Decision,
    claiming_txid: Txid,
    block_height: u32,
)
    requires
        !entries_of(view, decision_id.period()).dom().contains(decision_id),
        entries_of(view, decision_id.period()) != Map::<DecisionId, Seq<DecisionEntry>>::empty(),
        claimed(view, decision_id, decision, claiming_txid, block_height) is Ok,
    ensures
        without_entry(
            claimed(view, decision_id, decision, claiming_txid, block_height)->Ok_0.periods,
            decision_id,
        ) == view.periods,
{
    let next = claimed(view, decision_id, decision, claiming_txid, block_height)->Ok_0;
    let period = decision_id.period();
    assert(next.periods[period][decision_id].len() == 1);
    assert(next.periods[period].remove(decision_id) =~= entries_of(view, period));
    assert(without_entry(next.periods, decision_id) =~= view.periods);
}

/// A claimed decision cannot be claimed again.
pub proof fn claimed_decision_is_taken(
    view: DecisionsView,
    decision_id: DecisionId,
    decision: Decision,
    claiming_txid: Txid,
    block_height: u32,
    current_period: u32,
)
    requires
        claimed(view, decision_id, decision, claiming_txid, block_height) is Ok,
    ensures
        claim_problem(
            claimed(view, decision_id, decision, claiming_txid, block_height)->Ok_0,
            decision_id,
            current_period,
        ) is Some,
{
    let next = claimed(view, decision_id, decision, claiming_txid, block_height)->Ok_0;
    let entry = DecisionEntry { decision_id, decision: Some(decision), claiming_txid };
    lemma_with_claim_claims(claims_of(entries_of(view, decision_id.period()), decision_id), entry);
    assert(is_claimed(next, decision_id));
}

} // verus!
