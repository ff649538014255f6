//! What holds of decisions when a block is connected and disconnected.

use vstd::prelude::*;

use crate::bytes::bytes_before;
use crate::state::block::connect::{all_put_to_vote, block_opened, put_to_vote, Opened};
use crate::state::block::disconnect::{
    coinbase_unmade, decisions_before, periods_up_to, tip_before,
};
use crate::state::block::laws::{coinbase_free, unmaking_undoes_coinbase};
use crate::state::decisions::database::{
    highest_or_zero, highest_period, is_highest, is_snapshot, minted, minted_from,
    periods_opened, previous_period, restoring_undoes_pricing, snapshot_of, transition_list,
    unclaimed_by, DecisionsView, PeriodEntries,
};
use crate::state::decisions::types::{
    current_of, rollback_keeps_earlier_entries, rollback_undoes_later_entries, up_to_height,
    HistoryEntry, FUTURE_PERIODS,
};
use crate::state::decisions::{DecisionId, DecisionState, PeriodPricing};
use crate::state::ledger::LedgerView;
use crate::state::voting::system::{resolved_all, resolved_one};
use crate::state::voting::types::DecisionResolutionEntry;
use crate::state::Error;
use crate::sums::has_rows;
use crate::table::{ascending, has_key, is_rows_of, lemma_row, row_has_key, rows_map, rows_of, Key};
use crate::types::block::Header;
use crate::types::transaction::output::TxOutput;
use crate::types::BlockHash;

verus! {

/// All that happened to decisions happened under a height.
pub open spec fn happened_under(histories: Map<DecisionId, Seq<HistoryEntry>>, height: u32) -> bool {
    forall|id: DecisionId, i: int|
        histories.dom().contains(id) && 0 <= i < histories[id].len() ==> (
        #[trigger] histories[id][i]).1 < height
}

/// The decisions with what undoes the pricing of a block.
pub open spec fn with_snapshot(view: DecisionsView, height: u32) -> DecisionsView {
    DecisionsView {
        pricing_undo: view.pricing_undo.insert(height, snapshot_of(view.pricing)),
        ..view
    }
}

/// The decisions whose period is over when a block opens.
pub open spec fn due(view: DecisionsView, current_period: u32) -> Seq<DecisionId> {
    transition_list(rows_of(view.histories), DecisionState::Claimed, 0, current_period)
}

/// Only what happened at a height, or after it, was added to what happened to
/// decisions, and nothing to those of which nothing is known.
pub open spec fn happened_at(
    before: Map<DecisionId, Seq<HistoryEntry>>,
    after: Map<DecisionId, Seq<HistoryEntry>>,
    height: u32,
) -> bool {
    &&& after.dom() == before.dom()
    &&& forall|id: DecisionId| #[trigger]
        before.dom().contains(id) ==> {
            ||| after[id] == before[id]
            ||| !(current_of(before[id]) is Created)
        }
    &&& height > 0 ==> forall|id: DecisionId| #[trigger]
        before.dom().contains(id) ==> up_to_height(after[id], (height - 1) as u32)
            == up_to_height(before[id], (height - 1) as u32)
}

/// Disconnecting a block takes decisions back to where they were: those that
/// were put to the vote or resolved wait again, the periods that came into sight
/// are gone, and whatever became of prices, the old ones are back. In the first
/// block no decision is due.
pub proof fn disconnecting_undoes_deciding(
    view: DecisionsView,
    voted: DecisionsView,
    after: DecisionsView,
    minting_undo: Map<u32, u32>,
    height: u32,
    current_period: u32,
)
    requires
        has_rows(view.histories),
        has_rows(view.pricing),
        happened_under(view.histories, height),
        !view.pricing_undo.dom().contains(height),
        current_period + FUTURE_PERIODS < u32::MAX,
        highest_or_zero(view.periods) < u32::MAX,
        height > 0 || due(view, current_period).len() == 0,
        all_put_to_vote(with_snapshot(view, height), due(view, current_period), height) == Ok::<
            DecisionsView,
            Error,
        >(voted),
        after == (DecisionsView {
            histories: after.histories,
            pricing: after.pricing,
            ..periods_opened(voted, height, current_period)
        }),
        happened_at(voted.histories, after.histories, height),
        height > 0 || after.histories == voted.histories,
    ensures
        decisions_before(
            after,
            minting_undo.insert(height, highest_or_zero(view.periods)),
            height,
        ) == view,
{
    let start = with_snapshot(view, height);
    lemma_put_to_vote(start, due(view, current_period), height, voted);
    let highest = highest_or_zero(view.periods);
    let target = (current_period + FUTURE_PERIODS - 1) as u32;
    assert(after.periods == minted(view.periods, target));
    lemma_keys_under_highest(view.periods);
    lemma_unminting(view.periods, highest, target + 1);
    if height > 0 {
        let before = (height - 1) as u32;
        lemma_same_keys(view.histories, after.histories);
        assert forall|id: DecisionId| view.histories.dom().contains(id) implies up_to_height(
            #[trigger] after.histories[id],
            before,
        ) == view.histories[id] by {
            assert(voted.histories.dom().contains(id));
            assert forall|i: int| 0 <= i < view.histories[id].len() implies (
            #[trigger] view.histories[id][i]).1 <= before by {}
            rollback_keeps_earlier_entries(view.histories[id], before);
        }
        assert forall|id: DecisionId| #[trigger] view.histories.dom().contains(id) implies {
            ||| after.histories[id] == view.histories[id]
            ||| !(current_of(view.histories[id]) is Created)
        } by {
            assert(voted.histories.dom().contains(id));
        }
        lemma_none_unclaimed(view.histories, after.histories, before);
        let back = after.histories.map_values(|h: Seq<HistoryEntry>| up_to_height(h, before));
        assert(back =~= view.histories);
    } else {
        assert(voted == start);
    }
    assert(periods_up_to(after.periods, highest) =~= view.periods);
    lemma_snapshot(view.pricing);
    restoring_undoes_pricing(view.pricing, after.pricing, snapshot_of(view.pricing));
    assert(after.pricing_undo.remove(height) =~= view.pricing_undo);
    assert(decisions_before(after, minting_undo.insert(height, highest), height) =~= view);
}

/// Resolving decisions adds to what happened to them at a height alone.
pub proof fn resolving_happens_at_its_height(
    view: DecisionsView,
    list: Seq<DecisionResolutionEntry>,
    height: u32,
    after: DecisionsView,
)
    requires
        resolved_all(view, list, height) == Ok::<DecisionsView, Error>(after),
    ensures
        after == (DecisionsView { histories: after.histories, ..view }),
        happened_at(view.histories, after.histories, height),
    decreases list.len(),
{
    if list.len() > 0 {
        let mid = resolved_all(view, list.drop_last(), height)->Ok_0;
        resolving_happens_at_its_height(view, list.drop_last(), height, mid);
        let id = list.last().decision_id;
        assert(resolved_one(mid, list.last(), height) == Ok::<DecisionsView, Error>(after));
        assert(after.histories.dom() =~= view.histories.dom());
        if height > 0 {
            rollback_undoes_later_entries(
                mid.histories[id],
                (DecisionState::Resolved, height, Some(list.last().outcome_value)),
                (height - 1) as u32,
            );
        }
    }
}

/// Disconnecting a block takes decisions back to where they were: those that
/// were put to the vote wait again, the periods that came into sight are gone,
/// and whatever became of prices, the old ones are back. In the first block no
/// decision is due.
pub proof fn disconnecting_undoes_opening(
    view: DecisionsView,
    voted: DecisionsView,
    pricing: Map<u32, PeriodPricing>,
    minting_undo: Map<u32, u32>,
    height: u32,
    current_period: u32,
)
    requires
        has_rows(view.histories),
        has_rows(view.pricing),
        happened_under(view.histories, height),
        !view.pricing_undo.dom().contains(height),
        current_period + FUTURE_PERIODS < u32::MAX,
        highest_or_zero(view.periods) < u32::MAX,
        height > 0 || due(view, current_period).len() == 0,
        all_put_to_vote(with_snapshot(view, height), due(view, current_period), height) == Ok::<
            DecisionsView,
            Error,
        >(voted),
    ensures
        decisions_before(
            DecisionsView { pricing, ..periods_opened(voted, height, current_period) },
            minting_undo.insert(height, highest_or_zero(view.periods)),
            height,
        ) == view,
{
    disconnecting_undoes_deciding(
        view,
        voted,
        DecisionsView { pricing, ..periods_opened(voted, height, current_period) },
        minting_undo,
        height,
        current_period,
    );
}

/// Disconnecting a block without transactions takes the state back to where it
/// was: coins, decisions, prices and the tip. What is left is the reputation
/// that the miner of the first block got.
pub proof fn disconnecting_undoes_an_empty_block(
    at: Opened,
    header: Header,
    coinbase: Seq<TxOutput>,
    mainchain_timestamp: u64,
    current_period: u32,
    height: u32,
    opened: Opened,
    pricing: Map<u32, PeriodPricing>,
)
    requires
        has_rows(at.decisions.histories),
        has_rows(at.decisions.pricing),
        happened_under(at.decisions.histories, height),
        !at.decisions.pricing_undo.dom().contains(height),
        current_period + FUTURE_PERIODS < u32::MAX,
        highest_or_zero(at.decisions.periods) < u32::MAX,
        height > 0 || due(at.decisions, current_period).len() == 0,
        height > 0 <==> header.prev_side_hash is Some,
        coinbase.len() <= u32::MAX,
        at.ledger.index_in_step(),
        coinbase_free(at.ledger, header.merkle_root, coinbase.len() as int),
        block_opened(at, header, coinbase, mainchain_timestamp, current_period, height) == Ok::<
            Opened,
            Error,
        >(opened),
    ensures
        coinbase_unmade(opened.ledger, header.merkle_root, coinbase.len()) == Ok::<
            LedgerView,
            Error,
        >(at.ledger),
        decisions_before(
            DecisionsView {
                pricing,
                ..periods_opened(opened.decisions, height, current_period)
            },
            opened.minting_undo,
            height,
        ) == at.decisions,
        tip_before(header, height) == Ok::<(Option<BlockHash>, Option<u32>), Error>(
            (
                header.prev_side_hash,
                if height > 0 {
                    Some((height - 1) as u32)
                } else {
                    None
                },
            ),
        ),
        height > 0 ==> opened.reputation == at.reputation,
{
    unmaking_undoes_coinbase(at.ledger, header.merkle_root, coinbase);
    disconnecting_undoes_opening(
        at.decisions,
        opened.decisions,
        pricing,
        at.minting_undo,
        height,
        current_period,
    );
}

/// Decisions can be claimed for the present period and the ones in sight after
/// it: the last period that there is stays as far ahead of the present one,
/// and tells when periods were opened last.
pub proof fn periods_keep_pace(
    view: DecisionsView,
    height: u32,
    previous_current: u32,
    current_period: u32,
)
    requires
        previous_current <= current_period,
        current_period + FUTURE_PERIODS < u32::MAX,
        highest_period(view.periods) == Some((previous_current + FUTURE_PERIODS - 1) as u32),
    ensures
        previous_period(view.periods) == previous_current,
        highest_period(periods_opened(view, height, current_period).periods) == Some(
            (current_period + FUTURE_PERIODS - 1) as u32,
        ),
{
    let highest = (previous_current + FUTURE_PERIODS - 1) as u32;
    let target = (current_period + FUTURE_PERIODS - 1) as u32;
    lemma_keys_under_highest(view.periods);
    assert(view.periods.dom().contains(highest)) by {
        let h = choose|h: u32| is_highest(view.periods, h);
        assert(is_highest(view.periods, h));
    }
    let after = minted_from(view.periods, highest + 1, target + 1);
    assert(minted(view.periods, target) == after);
    lemma_minted_keys(view.periods, highest + 1, target + 1);
    assert(is_highest(after, target)) by {
        assert(after.dom().contains(target));
    }
    let h = choose|h: u32| is_highest(after, h);
    assert(is_highest(after, h));
    assert(after.dom().contains(h) && after.dom().contains(target));
}

pub proof fn lemma_minted_keys(periods: Map<u32, PeriodEntries>, from: int, to: int)
    requires
        0 <= from,
        to <= u32::MAX + 1,
    ensures
        forall|p: u32| #[trigger]
            minted_from(periods, from, to).dom().contains(p) <==> periods.dom().contains(p) || (from
                <= p && p < to),
    decreases to - from,
{
    if from < to {
        lemma_minted_keys(periods, from, to - 1);
        let before = minted_from(periods, from, to - 1);
        let last = (to - 1) as u32;
        assert(minted_from(periods, from, to) == before.insert(last, Map::empty()));
        assert forall|p: u32| #[trigger]
            minted_from(periods, from, to).dom().contains(p) <==> periods.dom().contains(p) || (from
                <= p && p < to) by {
            assert(before.dom().contains(p) <==> periods.dom().contains(p) || (from <= p && p < to
                - 1));
        }
    }
}

pub proof fn lemma_put_to_vote(
    view: DecisionsView,
    ids: Seq<DecisionId>,
    height: u32,
    voted: DecisionsView,
)
    requires
        all_put_to_vote(view, ids, height) == Ok::<DecisionsView, Error>(voted),
    ensures
        voted == (DecisionsView { histories: voted.histories, ..view }),
        voted.histories.dom() == view.histories.dom(),
        forall|id: DecisionId| #[trigger]
            view.histories.dom().contains(id) ==> {
                ||| voted.histories[id] == view.histories[id]
                ||| current_of(view.histories[id]) is Claimed
            },
        height > 0 ==> forall|id: DecisionId| #[trigger]
            view.histories.dom().contains(id) ==> up_to_height(
                voted.histories[id],
                (height - 1) as u32,
            ) == up_to_height(view.histories[id], (height - 1) as u32),
    decreases ids.len(),
{
    if ids.len() > 0 {
        let before = all_put_to_vote(view, ids.drop_last(), height)->Ok_0;
        lemma_put_to_vote(view, ids.drop_last(), height, before);
        let id = ids.last();
        assert(put_to_vote(before, id, height) == Ok::<DecisionsView, Error>(voted));
        assert(voted.histories.dom() =~= view.histories.dom());
        if height > 0 {
            rollback_undoes_later_entries(
                before.histories[id],
                (DecisionState::Voting, height, None),
                (height - 1) as u32,
            );
        }
    }
}

/// A map with the keys of one that has rows has rows.
proof fn lemma_same_keys<K: Key, V>(a: Map<K, V>, b: Map<K, V>)
    requires
        has_rows(a),
        a.dom() == b.dom(),
    ensures
        is_rows_of(rows_of(b), b),
{
    let rows = choose|rows: Seq<(K, V)>| is_rows_of(rows, a);
    let other = Seq::new(rows.len(), |i: int| (rows[i].0, b[rows[i].0]));
    assert(ascending(other)) by {
        assert forall|i: int, j: int| 0 <= i < j < other.len() implies #[trigger] bytes_before(
            other[i].0.key_bytes(),
            other[j].0.key_bytes(),
        ) by {
            assert(bytes_before(rows[i].0.key_bytes(), rows[j].0.key_bytes()));
        }
    }
    let m = rows_map(other);
    assert forall|x: K| m.dom().contains(x) <==> b.dom().contains(x) by {
        if m.dom().contains(x) {
            let i = choose|i: int| row_has_key(other, x, i);
            assert(row_has_key(other, x, i));
            assert(row_has_key(rows, x, i));
            assert(a.dom().contains(x));
        }
        if b.dom().contains(x) {
            assert(has_key(rows, x));
            let i = choose|i: int| row_has_key(rows, x, i);
            assert(row_has_key(rows, x, i));
            assert(row_has_key(other, x, i));
        }
    }
    assert forall|x: K| m.dom().contains(x) implies #[trigger] m[x] == b[x] by {
        let i = choose|i: int| row_has_key(other, x, i);
        assert(row_has_key(other, x, i));
        lemma_row(other, i);
    }
    assert(m =~= b);
    assert(is_rows_of(other, b));
}

/// Each row holds what the map holds at its key.
pub proof fn lemma_row_of<K: Key, V>(m: Map<K, V>, i: int)
    requires
        is_rows_of(rows_of(m), m),
        0 <= i < rows_of(m).len(),
    ensures
        m.dom().contains(rows_of(m)[i].0),
        m[rows_of(m)[i].0] == rows_of(m)[i].1,
{
    lemma_row(rows_of(m), i);
}

proof fn lemma_none_unclaimed(
    before: Map<DecisionId, Seq<HistoryEntry>>,
    after: Map<DecisionId, Seq<HistoryEntry>>,
    height: u32,
)
    requires
        is_rows_of(rows_of(after), after),
        before.dom() == after.dom(),
        forall|id: DecisionId| #[trigger]
            before.dom().contains(id) ==> {
                ||| after[id] == before[id]
                ||| !(current_of(before[id]) is Created)
            },
        forall|id: DecisionId|
            before.dom().contains(id) ==> up_to_height(#[trigger] after[id], height) == before[id],
    ensures
        unclaimed_by(rows_of(after), height).len() == 0,
{
    let rows = rows_of(after);
    assert forall|i: int| 0 <= i < rows.len() implies {
        ||| current_of((#[trigger] rows[i]).1) is Created
        ||| !(current_of(up_to_height(rows[i].1, height)) is Created)
    } by {
        lemma_row_of(after, i);
        assert(before.dom().contains(rows[i].0));
        assert(up_to_height(after[rows[i].0], height) == before[rows[i].0]);
    }
    lemma_no_row_unclaimed(rows, height);
}

proof fn lemma_no_row_unclaimed(rows: Seq<(DecisionId, Seq<HistoryEntry>)>, height: u32)
    requires
        forall|i: int|
            0 <= i < rows.len() ==> {
                ||| current_of((#[trigger] rows[i]).1) is Created
                ||| !(current_of(up_to_height(rows[i].1, height)) is Created)
            },
    ensures
        unclaimed_by(rows, height).len() == 0,
    decreases rows.len(),
{
    if rows.len() > 0 {
        let front = rows.drop_last();
        assert forall|i: int| 0 <= i < front.len() implies {
            ||| current_of((#[trigger] front[i]).1) is Created
            ||| !(current_of(up_to_height(front[i].1, height)) is Created)
        } by {
            assert(front[i] == rows[i]);
        }
        lemma_no_row_unclaimed(front, height);
        assert(rows.last() == rows[rows.len() - 1]);
    }
}

/// No period comes after the last one.
pub proof fn lemma_keys_under_highest(periods: Map<u32, PeriodEntries>)
    ensures
        forall|p: u32| #[trigger] periods.dom().contains(p) ==> p <= highest_or_zero(periods),
{
    assert forall|p: u32| #[trigger] periods.dom().contains(p) implies p <= highest_or_zero(
        periods,
    ) by {
        lemma_has_highest(periods, p, u32::MAX);
        let h = choose|h: u32| is_highest(periods, h);
        assert(is_highest(periods, h));
        assert(highest_period(periods) == Some(h));
    }
}

proof fn lemma_has_highest(periods: Map<u32, PeriodEntries>, p: u32, bound: u32)
    requires
        periods.dom().contains(p),
        forall|q: u32| #[trigger] periods.dom().contains(q) ==> q <= bound,
    ensures
        exists|h: u32| is_highest(periods, h),
    decreases bound,
{
    if periods.dom().contains(bound) {
        assert(is_highest(periods, bound));
    } else {
        assert(p < bound);
        assert forall|q: u32| #[trigger] periods.dom().contains(q) implies q <= bound - 1 by {
            assert(q != bound);
        }
        lemma_has_highest(periods, p, (bound - 1) as u32);
    }
}

/// The periods up to the last one are what there was before more were opened.
pub proof fn lemma_unminting(periods: Map<u32, PeriodEntries>, highest: u32, to: int)
    requires
        forall|p: u32| #[trigger] periods.dom().contains(p) ==> p <= highest,
        to <= u32::MAX + 1,
    ensures
        periods_up_to(minted_from(periods, highest + 1, to), highest) == periods,
    decreases to - highest,
{
    if highest + 1 >= to {
        assert(periods_up_to(periods, highest) =~= periods);
    } else {
        lemma_unminting(periods, highest, to - 1);
        let before = minted_from(periods, highest + 1, to - 1);
        let last = (to - 1) as u32;
        assert(last > highest);
        assert(periods_up_to(before.insert(last, Map::empty()), highest) =~= periods_up_to(
            before,
            highest,
        ));
    }
}

pub proof fn lemma_snapshot(pricing: Map<u32, PeriodPricing>)
    requires
        has_rows(pricing),
    ensures
        is_snapshot(snapshot_of(pricing), pricing),
{
    let rows = rows_of(pricing);
    let record = snapshot_of(pricing);
    assert(is_rows_of(rows, pricing));
    assert forall|i: int| 0 <= i < record.len() implies pricing.dom().contains(
        (#[trigger] record[i]).0,
    ) && record[i].1 == Some(pricing[record[i].0]) by {
        lemma_row_of(pricing, i);
    }
    assert forall|p: u32| #[trigger] pricing.dom().contains(p) implies has_key(record, p) by {
        assert(has_key(rows, p));
        let i = choose|i: int| row_has_key(rows, p, i);
        assert(row_has_key(rows, p, i));
        assert(row_has_key(record, p, i));
    }
}

} // verus!
