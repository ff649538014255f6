//! What holds of the decisions of a period and of their prices.

use vstd::prelude::*;

use crate::hex::decimal;
use crate::state::decisions::database::{
    all_purged, available_first, average_price, claim_problem, claimed_count, decisions_offered,
    genesis_pricing, highest_or_zero, is_claimed, is_due, lemma_price_sum_bounds, minted_from,
    nth_unlocked, periods_opened, price_sum, priced_from, reprice_due, seeded, settled,
    standard_id, to_reprice, unclaimed_by, voting_count, voting_list, with_prices, DecisionsView,
    PeriodEntries,
};
use crate::state::decisions::order::{claimed_among, Claims};
use crate::state::decisions::pricing::{unlocked, PeriodPricing};
use crate::state::decisions::types::{
    decision_bounds_error, first_long, period_name, text_len, Decision, DecisionEntry, DecisionId,
    DecisionState, DecisionStateHistory, DecisionType, HistoryEntry,
};
use crate::types::Real;

verus! {

/// A vote on a yes-or-no decision lies between nought and one, a vote on a scale within
/// the scale and on one of its steps, and a vote on a choice names an option or the one
/// past the last. A vote that is no number abstains.
pub proof fn votes_fit_their_decision(
    decision: Decision,
    value: Real,
    step_is_aligned: bool,
    option: Option<u64>,
)
    ensures
        value.is_nan() ==> decision.vote_problem(value, step_is_aligned, option) is None,
        !value.is_nan() ==> (decision.vote_problem(value, step_is_aligned, option) is None <==> (
        match decision.decision_type {
            DecisionType::Binary => 0 <= value.rank() <= 0x3ff0_0000_0000_0000,
            DecisionType::Scaled { min, max, increment } => {
                &&& step_is_aligned
                &&& !min.is_nan() ==> min.rank() <= value.rank()
                &&& !max.is_nan() ==> value.rank() <= max.rank()
            },
            DecisionType::Category { options } => option is Some && option->0 <= options@.len(),
        })),
{
}

/// A decision has a header of a hundred bytes at most, a description of two thousand at
/// most, and at most ten tags. A scale runs upwards between two numbers in whole steps,
/// and a choice has two options at least.
pub proof fn decisions_have_a_shape(
    decision_type: DecisionType,
    header: String,
    description: String,
    tags: Seq<String>,
    range_is_aligned: bool,
)
    ensures
        Decision::problem(decision_type, header, description, tags, range_is_aligned) is None
            <==> {
            &&& text_len(header) <= 100
            &&& text_len(description) <= 2000
            &&& tags.len() <= 10
            &&& forall|i: int| 0 <= i < tags.len() ==> text_len(#[trigger] tags[i]) <= 50
            &&& match decision_type {
                DecisionType::Binary => true,
                DecisionType::Scaled { min, max, increment } => {
                    &&& min.finite()
                    &&& max.finite()
                    &&& increment.finite()
                    &&& min.rank() < max.rank()
                    &&& 0 < increment.rank()
                    &&& range_is_aligned
                },
                DecisionType::Category { options } => options@.len() >= 2,
            }
        },
{
    lemma_no_long_tag(tags, 0);
}

proof fn lemma_no_long_tag(tags: Seq<String>, i: int)
    requires
        0 <= i,
    ensures
        first_long(tags, i) is None <==> forall|k: int|
            i <= k < tags.len() ==> text_len(#[trigger] tags[k]) <= 50,
    decreases tags.len() - i,
{
    if i < tags.len() && text_len(tags[i]) <= 50 {
        lemma_no_long_tag(tags, i + 1);
        if first_long(tags, i) is None {
            assert forall|k: int| i <= k < tags.len() implies text_len(#[trigger] tags[k]) <= 50 by {
                if k > i {
                    assert(i + 1 <= k);
                }
            }
        }
    }
}

/// Seven bits name the period of a decision, and sixteen its place in it.
pub proof fn ids_have_a_range(period: u32, index: u32)
    ensures
        decision_bounds_error(period, index) is None <==> period < 128 && index < 65536,
{
}

/// A decision that was claimed is put to the vote, and one that was voted on is
/// resolved. Any may become invalid. Nothing else happens to one.
pub proof fn decisions_move_forward(from: DecisionState, to: DecisionState)
    ensures
        from.may_become(to) <==> to is Invalid || (from is Claimed && to is Voting) || (
        from is Voting && to is Resolved),
{
}

/// Each mint opens five places in each of five tiers of a hundred.
pub proof fn mints_open_places(index: u32, mints: u64)
    ensures
        unlocked(index, mints) <==> index < 500 && index as int % 100 < 5 * mints,
{
}

/// The present period offers five hundred decisions, and each of the nineteen after it
/// twenty-five fewer than the one before.
pub proof fn later_periods_offer_less(period: u32, current_period: u32)
    ensures
        decisions_offered(current_period, current_period) == 500,
        period < current_period ==> decisions_offered(period, current_period) == 0,
        period >= current_period + 20 ==> decisions_offered(period, current_period) == 0,
        current_period < period < current_period + 20 ==> decisions_offered(period, current_period)
            + 25 == decisions_offered((period - 1) as u32, current_period),
{
}

/// The price of all periods from `first` on, up to `end`, and how many have one.
pub open spec fn priced_between(pricing: Map<u32, PeriodPricing>, first: int, end: int) -> (
    nat,
    nat,
)
    decreases end - first,
{
    if first >= end {
        (0, 0)
    } else {
        let rest = priced_between(pricing, first + 1, end);
        if pricing.dom().contains(first as u32) {
            (pricing[first as u32].p_period as nat + rest.0, 1 + rest.1)
        } else {
            rest
        }
    }
}

proof fn lemma_priced_between(pricing: Map<u32, PeriodPricing>, first: int, end: int)
    requires
        first < end,
    ensures
        priced_between(pricing, first, end) == {
            let before = priced_between(pricing, first, end - 1);
            if pricing.dom().contains((end - 1) as u32) {
                (before.0 + pricing[(end - 1) as u32].p_period as nat, before.1 + 1)
            } else {
                before
            }
        },
    decreases end - first,
{
    if first + 1 < end {
        lemma_priced_between(pricing, first + 1, end);
    } else {
        assert(priced_between(pricing, end, end) == (0nat, 0nat));
    }
}

proof fn lemma_price_sum(pricing: Map<u32, PeriodPricing>, current_period: u32, n: int)
    requires
        1 <= n,
    ensures
        price_sum(pricing, current_period, n) == priced_between(
            pricing,
            current_period + 1,
            current_period + n,
        ),
    decreases n,
{
    if n > 1 {
        lemma_price_sum(pricing, current_period, n - 1);
        lemma_priced_between(pricing, current_period + 1, current_period + n);
    }
}

/// The average price is that of the nineteen periods after the present one, as far as
/// they have a price, and the price at genesis where none has.
pub proof fn average_prices_look_ahead(
    pricing: Map<u32, PeriodPricing>,
    current_period: u32,
    genesis: u64,
)
    requires
        current_period + 20 < u32::MAX,
    ensures
        ({
            let (sum, count) = priced_between(pricing, current_period + 1, current_period + 20);
            let average = average_price(pricing, current_period, genesis) as nat;
            &&& count == 0 ==> average == genesis
            &&& count > 0 ==> average * count <= sum < (average + 1) * count
        }),
{
    let (sum, count) = priced_between(pricing, current_period + 1, current_period + 20);
    lemma_price_sum(pricing, current_period, 20);
    if count > 0 {
        lemma_price_sum_bounds(pricing, current_period, 20);
        assert(0 <= sum as int / count as int <= u64::MAX) by (nonlinear_arith)
            requires
                0 <= sum <= count * u64::MAX,
                count > 0,
        ;
        let average = sum as int / count as int;
        assert(average * count <= sum < (average + 1) * count) by (nonlinear_arith)
            requires
                average == sum as int / count as int,
                count > 0,
        ;
    }
}

/// At genesis each of twenty periods gets the price at genesis, a floor of a sixteenth
/// of it, and as many mints as there are periods from it on. A period that has a price
/// keeps it, and no other gets one.
pub proof fn genesis_prices_twenty_periods(
    pricing: Map<u32, PeriodPricing>,
    current_period: u32,
    block_height: u32,
    genesis: u64,
    n: int,
    period: u32,
)
    requires
        0 <= n <= 20,
        current_period + 20 < u32::MAX,
    ensures
        ({
            let after = genesis_pricing(pricing, current_period, block_height, genesis, n);
            let new = current_period <= period < current_period + n && !pricing.dom().contains(
                period,
            );
            &&& after.dom().contains(period) <==> pricing.dom().contains(period) || new
            &&& pricing.dom().contains(period) ==> after[period] == pricing[period]
            &&& new ==> {
                &&& after[period].p_period == genesis
                &&& after[period].p_floor == genesis / 16
                &&& after[period].mints == 20 - (period - current_period)
                &&& after[period].window_open_mints == after[period].mints
                &&& after[period].claimed == 0
                &&& after[period].window_open_claimed == 0
                &&& after[period].last_reprice_block == block_height
            }
        }),
    decreases n,
{
    if n > 0 {
        genesis_prices_twenty_periods(
            pricing,
            current_period,
            block_height,
            genesis,
            n - 1,
            period,
        );
        let last = (current_period + n - 1) as u32;
        genesis_prices_twenty_periods(pricing, current_period, block_height, genesis, n - 1, last);
    }
}

/// A new period starts with one mint, nothing claimed, the average price of the periods
/// priced before it, and a floor of a sixteenth of that. The others keep their price.
pub proof fn new_periods_start_at_the_average(
    pricing: Map<u32, PeriodPricing>,
    current_period: u32,
    block_height: u32,
    genesis: u64,
    from: int,
    to: int,
    period: u32,
)
    requires
        0 <= from,
        to <= u32::MAX,
    ensures
        ({
            let after = seeded(pricing, current_period, block_height, genesis, from, to);
            &&& after.dom().contains(period) <==> pricing.dom().contains(period) || from <= period
                < to
            &&& !(from <= period < to) ==> after[period] == pricing[period]
            &&& from <= period < to ==> {
                let before = seeded(
                    pricing,
                    current_period,
                    block_height,
                    genesis,
                    from,
                    period as int,
                );
                let average = average_price(before, current_period, genesis);
                &&& after[period].p_period == average
                &&& after[period].p_floor == average / 16
                &&& after[period].mints == 1
                &&& after[period].window_open_mints == 1
                &&& after[period].claimed == 0
                &&& after[period].window_open_claimed == 0
                &&& after[period].last_reprice_block == block_height
            }
        }),
    decreases to - from,
{
    if from < to {
        new_periods_start_at_the_average(
            pricing,
            current_period,
            block_height,
            genesis,
            from,
            to - 1,
            period,
        );
    }
}

/// Each period with a price is priced anew, with as many mints more as periods have
/// passed, and no other.
pub proof fn passing_periods_mint(
    pricing: Map<u32, PeriodPricing>,
    from: u32,
    n: int,
    mints: u64,
    k: int,
)
    requires
        from + n <= u32::MAX,
    ensures
        0 <= k < priced_from(pricing, from, n, mints).len() ==> {
            let (period, priced) = priced_from(pricing, from, n, mints)[k];
            &&& from <= period < from + n
            &&& pricing.dom().contains(period)
            &&& pricing[period].mints + mints <= u64::MAX ==> priced.mints == pricing[period].mints
                + mints
            &&& pricing[period].mints + mints > u64::MAX ==> priced.mints == u64::MAX
            &&& priced.p_period == pricing[period].p_period
            &&& priced.p_floor == pricing[period].p_floor
            &&& priced.claimed == pricing[period].claimed
            &&& priced.last_reprice_block == pricing[period].last_reprice_block
            &&& priced.window_open_claimed == pricing[period].window_open_claimed
            &&& priced.window_open_mints == pricing[period].window_open_mints
        },
    decreases n,
{
    if n > 0 {
        passing_periods_mint(pricing, from, n - 1, mints, k);
    }
}

/// No period with a price is left out.
pub proof fn passing_periods_mint_in_all(
    pricing: Map<u32, PeriodPricing>,
    from: u32,
    n: int,
    mints: u64,
    period: u32,
) -> (k: int)
    requires
        from + n <= u32::MAX,
        from <= period < from + n,
        pricing.dom().contains(period),
    ensures
        0 <= k < priced_from(pricing, from, n, mints).len(),
        priced_from(pricing, from, n, mints)[k].0 == period,
    decreases n,
{
    if period == from + n - 1 {
        priced_from(pricing, from, n, mints).len() - 1
    } else {
        passing_periods_mint_in_all(pricing, from, n - 1, mints, period)
    }
}

/// Each new price is stored under its period, and the other periods keep theirs.
pub proof fn new_prices_are_stored(
    pricing: Map<u32, PeriodPricing>,
    list: Seq<(u32, PeriodPricing)>,
    period: u32,
)
    ensures
        (forall|i: int| 0 <= i < list.len() ==> (#[trigger] list[i]).0 != period) ==> {
            &&& with_prices(pricing, list).dom().contains(period) <==> pricing.dom().contains(
                period,
            )
            &&& with_prices(pricing, list)[period] == pricing[period]
        },
        forall|i: int|
            0 <= i < list.len() && (#[trigger] list[i]).0 == period && (forall|j: int|
                i < j < list.len() ==> (#[trigger] list[j]).0 != period) ==> with_prices(
                pricing,
                list,
            ).dom().contains(period) && with_prices(pricing, list)[period] == list[i].1,
    decreases list.len(),
{
    if list.len() > 0 {
        let front = list.drop_last();
        new_prices_are_stored(pricing, front, period);
        assert(list[list.len() - 1] == list.last());
        assert forall|i: int| 0 <= i < front.len() implies #[trigger] front[i] == list[i] by {}
        assert forall|i: int|
            0 <= i < list.len() && (#[trigger] list[i]).0 == period && (forall|j: int|
                i < j < list.len() ==> (#[trigger] list[j]).0 != period) implies with_prices(
            pricing,
            list,
        ).dom().contains(period) && with_prices(pricing, list)[period] == list[i].1 by {
            if i < front.len() {
                assert(front[i] == list[i]);
                assert forall|j: int| i < j < front.len() implies (#[trigger] front[j]).0
                    != period by {
                    assert(front[j] == list[j]);
                }
            }
        }
    }
}

/// New periods hold no decision, and the others stay as they are.
pub proof fn new_periods_are_empty(
    periods: Map<u32, PeriodEntries>,
    from: int,
    to: int,
    period: u32,
)
    requires
        0 <= from,
        to <= u32::MAX,
    ensures
        from <= period < to ==> {
            &&& minted_from(periods, from, to).dom().contains(period)
            &&& minted_from(periods, from, to)[period] == Map::<
                DecisionId,
                Seq<DecisionEntry>,
            >::empty()
        },
        !(from <= period < to) ==> {
            &&& minted_from(periods, from, to).dom().contains(period) <==> periods.dom().contains(
                period,
            )
            &&& minted_from(periods, from, to)[period] == periods[period]
        },
    decreases to - from,
{
    if from < to {
        new_periods_are_empty(periods, from, to - 1, period);
    }
}

/// A decision is counted as claimed where one of its entries says what it is; for the
/// standard count it is a standard one besides.
pub proof fn claimed_decisions_are_counted(
    rows: Seq<(DecisionId, Claims)>,
    row: (DecisionId, Claims),
    standard_only: bool,
)
    ensures
        claimed_count(Seq::<(DecisionId, Claims)>::empty(), standard_only) == 0,
        ({
            let counts = exists|i: int| 0 <= i < row.1@.len() && (#[trigger] row.1@[i]).decision is Some;
            claimed_count(rows.push(row), standard_only) == claimed_count(rows, standard_only) + if counts
                && (standard_only ==> row.0.0[0] >= 128) {
                1nat
            } else {
                0
            }
        }),
{
    assert(rows.push(row).drop_last() =~= rows);
}

/// A period is over for good when seven have passed since.
pub proof fn periods_settle_after_seven(period: u32, current_period: u32)
    ensures
        settled(period, current_period) <==> current_period - period >= 8,
{
}

/// Of a decision, exactly the entries are claimed that say what it is.
pub proof fn claimed_entries_say_what_they_are(list: Seq<DecisionEntry>, entry: DecisionEntry)
    ensures
        claimed_among(list).contains(entry) <==> list.contains(entry) && entry.decision is Some,
    decreases list.len(),
{
    if list.len() > 0 {
        let front = list.drop_last();
        claimed_entries_say_what_they_are(front, entry);
        let before = claimed_among(front);
        let after = claimed_among(list);
        assert(list[list.len() - 1] == list.last());
        if before.contains(entry) {
            assert(after[before.index_of(entry)] == entry);
        }
        if front.contains(entry) {
            assert(list[front.index_of(entry)] == entry);
        }
        if list.contains(entry) && !front.contains(entry) {
            let i = list.index_of(entry);
            if i < front.len() {
                assert(front[i] == entry);
            }
            if entry.decision is Some {
                assert(after[after.len() - 1] == entry);
            }
        }
        if after.contains(entry) && !before.contains(entry) {
            let i = after.index_of(entry);
            if i < before.len() {
                assert(before[i] == entry);
            }
        }
    }
}

/// A decision that is on offer is a standard one of the period, in a place that is
/// open, and nobody has claimed it.
pub proof fn offered_decisions_are_free(
    view: DecisionsView,
    period: u32,
    mints: u64,
    n: int,
    i: int,
)
    requires
        mints > 0,
        period < 128,
        n <= mints * 25,
        mints <= 20,
        0 <= i < available_first(view, period, mints, n).len(),
    ensures
        ({
            let id = available_first(view, period, mints, n)[i];
            &&& id.period() == period
            &&& id.standard()
            &&& unlocked(id.index(), mints)
            &&& !is_claimed(view, id)
        }),
    decreases n,
{
    let before = available_first(view, period, mints, n - 1);
    if i < before.len() {
        offered_decisions_are_free(view, period, mints, n - 1, i);
    } else {
        let place = nth_unlocked(n - 1, mints);
        lemma_nth_unlocked(n - 1, mints);
        let index = place as u32;
        let bytes: [u8; 3] = [
            (128 + period) as u8,
            (index / 256) as u8,
            (index % 256) as u8,
        ];
        let witness = DecisionId(bytes);
        assert(witness.standard() && witness.period() == period && witness.index() == index);
        let id = standard_id(period, index);
        assert(id.index() == place as u32 && id.period() == period && id.standard());
    }
}

proof fn lemma_nth_unlocked(n: int, mints: u64)
    requires
        0 < mints <= 20,
        0 <= n < mints * 25,
    ensures
        0 <= nth_unlocked(n, mints) < 500,
        unlocked(nth_unlocked(n, mints) as u32, mints),
{
    let per: int = mints * 5;
    let q = n / per;
    let r = n % per;
    assert(0 <= q < 5 && 0 <= r < per) by (nonlinear_arith)
        requires
            q == n / per,
            r == n % per,
            per > 0,
            0 <= n < per * 5,
    ;
    assert((q * 100 + r) % 100 == r);
    assert((q * 100 + r) / 100 == q);
}

/// Each period in which decisions are voted on is listed with the number of them.
pub proof fn voting_periods_are_listed(
    rows: Seq<(DecisionId, DecisionStateHistory)>,
    n: int,
    period: u32,
)
    requires
        0 <= n <= 128,
        rows.len() <= u64::MAX,
    ensures
        period < n && voting_count(rows, period) > 0 ==> voting_list(rows, n).contains(
            (period, voting_count(rows, period) as u64, 500u64),
        ),
        forall|i: int|
            0 <= i < voting_list(rows, n).len() ==> {
                let (p, count, total) = #[trigger] voting_list(rows, n)[i];
                p < n && count == voting_count(rows, p) as u64 && voting_count(rows, p) > 0
            },
    decreases n,
{
    if n > 0 {
        voting_periods_are_listed(rows, n - 1, period);
        let before = voting_list(rows, n - 1);
        let after = voting_list(rows, n);
        let item = (period, voting_count(rows, period) as u64, 500u64);
        if period < n && voting_count(rows, period) > 0 {
            if period < n - 1 {
                assert(after[before.index_of(item)] == item);
            } else {
                assert(after[after.len() - 1] == item);
            }
        }
        assert forall|i: int| 0 <= i < after.len() implies {
            let (p, count, total) = #[trigger] after[i];
            p < n && count == voting_count(rows, p) as u64 && voting_count(rows, p) > 0
        } by {
            if i < before.len() {
                assert(after[i] == before[i]);
            }
        }
    }
}

/// A decision counts as voted on in its period while its last state is that of voting.
pub proof fn decisions_in_voting_are_counted(
    rows: Seq<(DecisionId, DecisionStateHistory)>,
    row: (DecisionId, DecisionStateHistory),
    period: u32,
)
    ensures
        voting_count(Seq::<(DecisionId, DecisionStateHistory)>::empty(), period) == 0,
        voting_count(rows.push(row), period) == voting_count(rows, period) + if row.1@.len() > 0
            && row.1@.last().0 is Voting && row.0.0[0] % 128 == period {
            1nat
        } else {
            0
        },
{
    assert(rows.push(row).drop_last() =~= rows);
}

/// Rolled back to a height, a decision is unclaimed again where it was claimed above
/// that height only.
pub proof fn late_claims_are_rolled_back(
    rows: Seq<(DecisionId, Seq<HistoryEntry>)>,
    row: (DecisionId, Seq<HistoryEntry>),
    height: u32,
)
    ensures
        ({
            let kept = row.1.filter(|e: HistoryEntry| e.1 <= height);
            let after = unclaimed_by(rows.push(row), height);
            let was = row.1.len() > 0 && !(row.1.last().0 is Created);
            let stays = kept.len() > 0 && !(kept.last().0 is Created);
            if was && !stays {
                after == unclaimed_by(rows, height).push(row.0)
            } else {
                after == unclaimed_by(rows, height)
            }
        }),
{
    assert(rows.push(row).drop_last() =~= rows);
}

/// What is unclaimed is taken out of its period, and nothing else is.
pub proof fn unclaimed_decisions_are_removed(
    periods: Map<u32, PeriodEntries>,
    ids: Seq<DecisionId>,
    id: DecisionId,
)
    ensures
        ({
            let after = all_purged(periods, ids);
            let p = id.period();
            let had = periods.dom().contains(p) && periods[p].dom().contains(id);
            let has = after.dom().contains(p) && after[p].dom().contains(id);
            &&& has <==> had && !ids.contains(id)
            &&& has ==> after[p][id] == periods[p][id]
        }),
    decreases ids.len(),
{
    if ids.len() > 0 {
        let front = ids.drop_last();
        unclaimed_decisions_are_removed(periods, front, id);
        assert(ids[ids.len() - 1] == ids.last());
        if front.contains(id) {
            assert(ids[front.index_of(id)] == id);
        }
        if ids.contains(id) && id != ids.last() {
            assert(front[ids.index_of(id)] == id);
        }
        let before = all_purged(periods, front);
        let q = ids.last().period();
        if before.dom().contains(q) {
            let rest = before[q].remove(ids.last());
            if rest == Map::<DecisionId, Seq<DecisionEntry>>::empty() && q == id.period()
                && before[q].dom().contains(id) && id != ids.last() {
                assert(rest.dom().contains(id));
            }
        }
    }
}

/// A decision can be claimed where its period lies no more than nineteen periods ahead
/// and is not settled, and it is neither voted on nor claimed. A standard one lies in
/// no past period besides, and in a place that the mints of its period have opened.
pub proof fn free_decisions_can_be_claimed(view: DecisionsView, id: DecisionId, current_period: u32)
    requires
        current_period + 20 < u32::MAX,
    ensures
        claim_problem(view, id, current_period) is None <==> {
            let p = id.period();
            &&& current_period - p <= 7
            &&& p - current_period <= 19
            &&& !(view.histories.dom().contains(id) && view.histories[id].len() > 0
                && view.histories[id].last().0 is Voting)
            &&& id.0[0] >= 128 ==> {
                &&& p >= current_period
                &&& view.pricing.dom().contains(p)
                &&& id.index() < 500
                &&& id.index() as int % 100 < 5 * view.pricing[p].mints
            }
            &&& !(view.periods.dom().contains(p) && view.periods[p].dom().contains(id) && exists|
                i: int,
            |
                0 <= i < view.periods[p][id].len() && (
                #[trigger] view.periods[p][id][i]).decision is Some)
        },
{
    mints_open_places(id.index(), view.pricing[id.period()].mints);
}

/// A period is due for a new price when as many blocks have passed since its last one as
/// the interval says.
pub proof fn prices_are_due_after_the_interval(
    pricing: Map<u32, PeriodPricing>,
    block_height: u32,
    interval: u32,
    current_period: u32,
    period: u32,
)
    requires
        current_period <= period < current_period + 20,
        pricing.dom().contains(period),
        pricing[period].last_reprice_block <= block_height,
    ensures
        block_height - pricing[period].last_reprice_block >= interval ==> reprice_due(
            pricing,
            block_height,
            interval,
            current_period,
        ),
        (forall|other: u32| other != period ==> !(#[trigger] pricing.dom().contains(other)))
            && reprice_due(pricing, block_height, interval, current_period) ==> block_height
            - pricing[period].last_reprice_block >= interval,
{
    assert(is_due(pricing, block_height, interval, current_period, period - current_period)
        <==> block_height - pricing[period].last_reprice_block >= interval);
    if reprice_due(pricing, block_height, interval, current_period) && (forall|other: u32|
        other != period ==> !(#[trigger] pricing.dom().contains(other))) {
        let k = choose|k: int|
            0 <= k < 20 && #[trigger] is_due(
                pricing,
                block_height,
                interval,
                current_period,
                k,
            );
        if current_period + k <= u32::MAX {
            assert((current_period + k) as u32 == period);
        }
    }
}

/// Where no period has passed and none is due, no price changes. Where none has passed
/// and one is due, each of the twenty periods with a price is priced anew.
pub proof fn due_periods_are_priced_anew(
    view: DecisionsView,
    block_height: u32,
    current_period: u32,
    interval: u32,
    highest: u32,
)
    requires
        current_period + 20 < u32::MAX,
        highest_or_zero(view.periods) == highest,
        current_period + 19 <= highest,
    ensures
        ({
            let list = to_reprice(view, block_height, current_period, interval);
            let due = reprice_due(view.pricing, block_height, interval, current_period);
            &&& !due ==> list.len() == 0
            &&& due ==> list == priced_from(view.pricing, current_period, 20, 0)
        }),
{
}

/// Where periods have passed, each period with a price is priced anew, with a mint for
/// each that has passed.
pub proof fn passed_periods_are_minted_for(
    view: DecisionsView,
    block_height: u32,
    current_period: u32,
    interval: u32,
    highest: u32,
)
    requires
        current_period + 20 < u32::MAX,
        highest_or_zero(view.periods) == highest,
        19 <= highest < current_period + 19,
        highest + 1 >= current_period,
    ensures
        to_reprice(view, block_height, current_period, interval) == priced_from(
            periods_opened(view, block_height, current_period).pricing,
            current_period,
            highest + 1 - current_period,
            (current_period + 19 - highest) as u64,
        ),
{
}

/// A period is a quarter of a year, and the first is the first of 2009.
pub proof fn periods_are_quarters(year: nat, quarter: nat)
    requires
        1 <= quarter <= 4,
        4 * year + quarter <= u32::MAX,
    ensures
        period_name((4 * year + quarter) as u32) == "Q"@ + decimal(quarter) + " Y"@ + decimal(
            2009 + year,
        ),
{
}

} // verus!
