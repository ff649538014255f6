//! What holds of claimed decisions when a block is connected and disconnected.

use vstd::prelude::*;

use crate::mempool::entry_ids;
use crate::state::block::claims::{
    entries_claimed, entries_unclaimed, entry_claimed, Claimer,
};
use crate::state::block::connect::all_put_to_vote;
use crate::state::block::decision_laws::{
    due, happened_at, happened_under, lemma_keys_under_highest, lemma_minted_keys,
    lemma_put_to_vote, lemma_row_of, lemma_snapshot, lemma_unminting,
    with_snapshot,
};
use crate::state::block::disconnect::{decisions_before, periods_up_to};
use crate::state::decisions::database::{
    all_purged, claimed, highest_or_zero, highest_period, is_highest, minted, minted_from,
    periods_opened, restoring_undoes_pricing, snapshot_of, unclaimed_by, without_entry,
    DecisionsView, PeriodEntries,
};
use crate::state::decisions::types::{
    current_of, rollback_keeps_earlier_entries, up_to_height, DecisionEntry, DecisionType,
    HistoryEntry, FUTURE_PERIODS,
};
use crate::state::decisions::{DecisionId, DecisionState};
use crate::state::Error;
use crate::sums::has_rows;
use crate::table::{is_rows_of, rows_of};
use crate::types::transaction::DecisionClaimEntry;

verus! {

/// A decision has no entry, in a period that has others, and nothing is known of
/// it.
pub open spec fn is_fresh(view: DecisionsView, id: DecisionId) -> bool {
    &&& view.periods.dom().contains(id.period())
    &&& view.periods[id.period()] != Map::<DecisionId, Seq<DecisionEntry>>::empty()
    &&& !view.periods[id.period()].dom().contains(id)
    &&& view.histories.dom().contains(id) ==> view.histories[id].len() == 0
}

/// What is known of a decision that was claimed at a height.
pub open spec fn claim_history(height: u32) -> Seq<HistoryEntry> {
    seq![(DecisionState::Claimed, height, None)]
}

/// Decisions were claimed at a height, each of them once.
pub open spec fn claims_added(
    before: DecisionsView,
    after: DecisionsView,
    ids: Seq<DecisionId>,
    height: u32,
) -> bool {
    &&& after == (DecisionsView {
        periods: after.periods,
        histories: after.histories,
        pricing: after.pricing,
        ..before
    })
    &&& after.periods.dom() == before.periods.dom()
    &&& forall|p: u32, id: DecisionId| #[trigger]
        before.periods.dom().contains(p) ==> (#[trigger] after.periods[p].dom().contains(id) <==> (
        before.periods[p].dom().contains(id) || (ids.contains(id) && id.period() == p)))
    &&& forall|p: u32, id: DecisionId|
        before.periods.dom().contains(p) && before.periods[p].dom().contains(id)
            ==> #[trigger] after.periods[p][id] == before.periods[p][id]
    &&& forall|id: DecisionId| #[trigger]
        ids.contains(id) ==> after.periods[id.period()][id].len() == 1
    &&& forall|id: DecisionId| #[trigger]
        after.histories.dom().contains(id) <==> before.histories.dom().contains(id)
            || ids.contains(id)
    &&& forall|id: DecisionId| #[trigger]
        after.histories.dom().contains(id) ==> after.histories[id] == if ids.contains(id) {
            claim_history(height)
        } else {
            before.histories[id]
        }
}

proof fn lemma_pushed<A>(list: Seq<A>, last: A, a: A)
    ensures
        list.push(last).contains(a) <==> list.contains(a) || a == last,
{
    let more = list.push(last);
    if list.contains(a) {
        assert(more[list.index_of(a)] == a);
    }
    assert(more[list.len() as int] == last);
    if more.contains(a) && a != last {
        assert(list[more.index_of(a)] == a);
    }
}

pub proof fn lemma_none_added(view: DecisionsView, height: u32)
    ensures
        claims_added(view, view, Seq::empty(), height),
{
}

proof fn lemma_one_added(
    before: DecisionsView,
    mid: DecisionsView,
    after: DecisionsView,
    ids: Seq<DecisionId>,
    entry: DecisionClaimEntry,
    decision_type: DecisionType,
    by: Claimer,
    aligned: bool,
)
    requires
        claims_added(before, mid, ids, by.height),
        entry_claimed(mid, entry, decision_type, by, aligned) == Ok::<DecisionsView, Error>(after),
        is_fresh(before, DecisionId(entry.decision_id_bytes)),
        !ids.contains(DecisionId(entry.decision_id_bytes)),
    ensures
        claims_added(before, after, ids.push(DecisionId(entry.decision_id_bytes)), by.height),
{
    let id = DecisionId(entry.decision_id_bytes);
    let p = id.period();
    let more = ids.push(id);
    assert forall|a: DecisionId| more.contains(a) <==> ids.contains(a) || a == id by {
        lemma_pushed(ids, id, a);
    }
    assert(before.periods.dom().contains(p));
    assert(!mid.periods[p].dom().contains(id));
    assert(after.periods[p].dom() =~= mid.periods[p].dom().insert(id));
    assert(after.periods[p][id].len() == 1);
    assert(after.periods.dom() =~= before.periods.dom());
    assert forall|q: u32, a: DecisionId| #[trigger]
        before.periods.dom().contains(q) implies (#[trigger] after.periods[q].dom().contains(a) <==> (
    before.periods[q].dom().contains(a) || (more.contains(a) && a.period() == q))) by {
        assert(mid.periods[q].dom().contains(a) <==> before.periods[q].dom().contains(a) || (
        ids.contains(a) && a.period() == q));
    }
    assert forall|q: u32, a: DecisionId|
        before.periods.dom().contains(q) && before.periods[q].dom().contains(
            a,
        ) implies #[trigger] after.periods[q][a] == before.periods[q][a] by {
        assert(mid.periods[q][a] == before.periods[q][a]);
        assert(mid.periods[q].dom().contains(a));
    }
    assert forall|a: DecisionId| #[trigger]
        more.contains(a) implies after.periods[a.period()][a].len() == 1 by {
        if a != id {
            assert(mid.periods[a.period()][a].len() == 1);
        }
    }
}

/// Claiming decisions that are fresh, each of them once, adds them.
pub proof fn claiming_adds_claims(
    before: DecisionsView,
    mid: DecisionsView,
    after: DecisionsView,
    ids: Seq<DecisionId>,
    entries: Seq<DecisionClaimEntry>,
    decision_type: DecisionType,
    by: Claimer,
    aligned: bool,
)
    requires
        claims_added(before, mid, ids, by.height),
        entries_claimed(mid, entries, decision_type, by, aligned) == Ok::<DecisionsView, Error>(
            after,
        ),
        forall|i: int|
            0 <= i < entries.len() ==> is_fresh(
                before,
                #[trigger] entry_ids(entries)[i],
            ),
        (ids + entry_ids(entries)).no_duplicates(),
    ensures
        claims_added(before, after, ids + entry_ids(entries), by.height),
    decreases entries.len(),
{
    if entries.len() == 0 {
        assert(ids + entry_ids(entries) =~= ids);
    } else {
        let front = entries.drop_last();
        let next = entries_claimed(mid, front, decision_type, by, aligned)->Ok_0;
        let all = ids + entry_ids(entries);
        let some = ids + entry_ids(front);
        let id = DecisionId(entries.last().decision_id_bytes);
        assert(some.push(id) =~= all);
        assert forall|i: int| 0 <= i < front.len() implies is_fresh(
            before,
            #[trigger] entry_ids(front)[i],
        ) by {
            assert(entry_ids(front)[i] == entry_ids(entries)[i]);
        }
        assert forall|i: int, j: int|
            0 <= i < some.len() && 0 <= j < some.len() && i != j implies some[i] != some[j] by {
            assert(some[i] == all[i]);
            assert(some[j] == all[j]);
        }
        claiming_adds_claims(before, mid, next, ids, front, decision_type, by, aligned);
        assert(entry_ids(entries)[entries.len() - 1] == id);
        if some.contains(id) {
            let i = some.index_of(id);
            assert(all[i] == id);
            assert(all[all.len() - 1] == id);
        }
        lemma_one_added(
            before,
            next,
            after,
            some,
            entries.last(),
            decision_type,
            by,
            aligned,
        );
    }
}

/// The decisions that belong to a period.
pub open spec fn in_period(ids: Set<DecisionId>, period: u32) -> Set<DecisionId> {
    ids.filter(|id: DecisionId| id.period() == period)
}

/// The rows of periods without the entries of some decisions.
pub open spec fn without_ids(
    periods: Map<u32, PeriodEntries>,
    gone: Set<DecisionId>,
) -> Map<u32, PeriodEntries> {
    Map::new(
        |p: u32| periods.dom().contains(p),
        |p: u32| periods[p].remove_keys(in_period(gone, p)),
    )
}

/// Each of some decisions has one entry, and is not the last of its period.
pub open spec fn can_go(periods: Map<u32, PeriodEntries>, ids: Set<DecisionId>) -> bool {
    forall|id: DecisionId| #[trigger]
        ids.contains(id) ==> {
            &&& periods.dom().contains(id.period())
            &&& periods[id.period()].dom().contains(id)
            &&& periods[id.period()][id].len() == 1
            &&& periods[id.period()].remove_keys(in_period(ids, id.period())) != Map::<
                DecisionId,
                Seq<DecisionEntry>,
            >::empty()
        }
}

proof fn lemma_one_gone(
    periods: Map<u32, PeriodEntries>,
    ids: Set<DecisionId>,
    gone: Set<DecisionId>,
    id: DecisionId,
)
    requires
        can_go(periods, ids),
        gone.subset_of(ids),
        ids.contains(id),
        !gone.contains(id),
    ensures
        without_entry(without_ids(periods, gone), id) == without_ids(periods, gone.insert(id)),
{
    let p = id.period();
    let q = without_ids(periods, gone);
    let next = without_ids(periods, gone.insert(id));
    assert(q[p] == periods[p].remove_keys(in_period(gone, p)));
    assert(q[p].dom().contains(id));
    assert(q[p][id] == periods[p][id]);
    let rest = q[p].remove(id);
    assert(rest =~= periods[p].remove_keys(in_period(gone.insert(id), p)));
    let left = periods[p].remove_keys(in_period(ids, p));
    if rest == Map::<DecisionId, Seq<DecisionEntry>>::empty() {
        assert forall|a: DecisionId| !left.dom().contains(a) by {
            if left.dom().contains(a) {
                assert(rest.dom().contains(a));
            }
        }
        assert(left =~= Map::<DecisionId, Seq<DecisionEntry>>::empty());
    }
    assert(without_entry(q, id) == q.insert(p, rest));
    assert forall|o: u32| periods.dom().contains(o) && o != p implies #[trigger] in_period(
        gone.insert(id),
        o,
    ) == in_period(gone, o) by {
        assert(in_period(gone.insert(id), o) =~= in_period(gone, o));
    }
    assert(q.insert(p, rest) =~= next);
}

/// Taking claims back removes their entries.
pub proof fn unclaiming_removes_claims(
    view: DecisionsView,
    periods: Map<u32, PeriodEntries>,
    ids: Set<DecisionId>,
    gone: Set<DecisionId>,
    entries: Seq<DecisionClaimEntry>,
)
    requires
        can_go(periods, ids),
        gone.subset_of(ids),
        view.periods == without_ids(periods, gone),
        entry_ids(entries).no_duplicates(),
        entry_ids(entries).to_set().subset_of(ids),
        entry_ids(entries).to_set().disjoint(gone),
    ensures
        entries_unclaimed(view, entries) == (DecisionsView {
            periods: without_ids(periods, gone.union(entry_ids(entries).to_set())),
            ..view
        }),
    decreases entries.len(),
{
    let all = entry_ids(entries);
    if entries.len() == 0 {
        assert(gone.union(all.to_set()) =~= gone);
    } else {
        let front = entries.drop_last();
        let some = entry_ids(front);
        let id = DecisionId(entries.last().decision_id_bytes);
        assert(some.push(id) =~= all);
        assert forall|i: int, j: int|
            0 <= i < some.len() && 0 <= j < some.len() && i != j implies some[i] != some[j] by {
            assert(some[i] == all[i]);
            assert(some[j] == all[j]);
        }
        assert forall|a: DecisionId| all.to_set().contains(a) <==> some.to_set().contains(a) || a
            == id by {
            lemma_pushed(some, id, a);
        }
        unclaiming_removes_claims(view, periods, ids, gone, front);
        assert(all.to_set().contains(id));
        if some.contains(id) {
            let i = some.index_of(id);
            assert(all[i] == id && all[all.len() - 1] == id);
        }
        lemma_one_gone(periods, ids, gone.union(some.to_set()), id);
        assert(gone.union(some.to_set()).insert(id) =~= gone.union(all.to_set()));
    }
}

proof fn lemma_minted_rows(periods: Map<u32, PeriodEntries>, from: int, to: int)
    requires
        0 <= from,
        to <= u32::MAX + 1,
    ensures
        forall|p: u32| #[trigger]
            minted_from(periods, from, to).dom().contains(p) ==> minted_from(periods, from, to)[p]
                == if from <= p && p < to {
                Map::empty()
            } else {
                periods[p]
            },
    decreases to - from,
{
    if from < to {
        lemma_minted_rows(periods, from, to - 1);
        let before = minted_from(periods, from, to - 1);
        let last = (to - 1) as u32;
        let after = minted_from(periods, from, to);
        assert(after == before.insert(last, Map::empty()));
        assert forall|p: u32| #[trigger] after.dom().contains(p) implies after[p] == if from <= p
            && p < to {
            Map::empty()
        } else {
            periods[p]
        } by {
            if p != last {
                assert(before.dom().contains(p));
            }
        }
    }
}

proof fn lemma_same_highest(a: Map<u32, PeriodEntries>, b: Map<u32, PeriodEntries>)
    requires
        a.dom() == b.dom(),
    ensures
        highest_or_zero(a) == highest_or_zero(b),
{
    assert forall|h: u32| is_highest(a, h) <==> is_highest(b, h) by {}
    if exists|h: u32| is_highest(a, h) {
        let x = choose|h: u32| is_highest(a, h);
        let y = choose|h: u32| is_highest(b, h);
        assert(is_highest(b, x));
        assert(is_highest(a, y));
        assert(a.dom().contains(x) && a.dom().contains(y));
        assert(x == y);
        assert(highest_period(a) == Some(x));
        assert(highest_period(b) == Some(y));
    } else {
        assert(highest_period(a) is None);
        assert(highest_period(b) is None);
    }
}

/// Claims that were added before periods were opened can be removed afterwards.
proof fn lemma_claims_can_go(
    before: DecisionsView,
    after: DecisionsView,
    ids: Seq<DecisionId>,
    height: u32,
    target: u32,
)
    requires
        claims_added(before, after, ids, height),
        forall|i: int| 0 <= i < ids.len() ==> is_fresh(before, #[trigger] ids[i]),
        target < u32::MAX,
        highest_or_zero(before.periods) < u32::MAX,
    ensures
        highest_or_zero(after.periods) == highest_or_zero(before.periods),
        can_go(minted(after.periods, target), ids.to_set()),
        without_ids(minted(after.periods, target), ids.to_set()) == minted(
            before.periods,
            target,
        ),
{
    let a = before.periods;
    let b = after.periods;
    lemma_same_highest(a, b);
    lemma_keys_under_highest(a);
    let from = highest_or_zero(a) + 1;
    let to = target + 1;
    let x = minted_from(a, from, to);
    let y = minted_from(b, from, to);
    assert(x == minted(a, target));
    assert(y == minted(b, target));
    lemma_minted_keys(a, from, to);
    lemma_minted_keys(b, from, to);
    lemma_minted_rows(a, from, to);
    lemma_minted_rows(b, from, to);
    let gone = ids.to_set();
    assert forall|id: DecisionId| #[trigger] gone.contains(id) implies is_fresh(before, id) by {
        let i = ids.index_of(id);
        assert(ids[i] == id);
    }
    assert forall|p: u32| #[trigger] a.dom().contains(p) implies b[p].remove_keys(
        in_period(gone, p),
    ) == a[p] by {
        let rest = b[p].remove_keys(in_period(gone, p));
        assert forall|id: DecisionId| rest.dom().contains(id) <==> a[p].dom().contains(id) by {
            assert(b[p].dom().contains(id) <==> (a[p].dom().contains(id) || (ids.contains(id)
                && id.period() == p)));
            if gone.contains(id) {
                assert(is_fresh(before, id));
            }
        }
        assert forall|id: DecisionId| rest.dom().contains(id) implies rest[id] == a[p][id] by {
            assert(b[p][id] == a[p][id]);
        }
        assert(rest =~= a[p]);
    }
    assert forall|id: DecisionId| #[trigger] gone.contains(id) implies {
        &&& y.dom().contains(id.period())
        &&& y[id.period()].dom().contains(id)
        &&& y[id.period()][id].len() == 1
        &&& y[id.period()].remove_keys(in_period(gone, id.period())) != Map::<
            DecisionId,
            Seq<DecisionEntry>,
        >::empty()
    } by {
        let p = id.period();
        assert(is_fresh(before, id));
        assert(ids.contains(id));
        assert(a.dom().contains(p));
        assert(y.dom().contains(p));
        assert(y[p] == b[p]);
        assert(b[p].dom().contains(id));
    }
    let back = without_ids(y, gone);
    assert forall|p: u32| back.dom().contains(p) implies back[p] == x[p] by {
        assert(y.dom().contains(p));
        assert(x.dom().contains(p));
        if from <= p && p < to {
            assert(y[p].remove_keys(in_period(gone, p)) =~= x[p]);
        } else {
            assert(a.dom().contains(p));
        }
    }
    assert(back =~= x);
}

proof fn lemma_none_purged(periods: Map<u32, PeriodEntries>, ids: Seq<DecisionId>)
    requires
        forall|i: int|
            0 <= i < ids.len() ==> !has_entry(periods, #[trigger] ids[i]) && has_others(
                periods,
                ids[i],
            ),
    ensures
        all_purged(periods, ids) == periods,
    decreases ids.len(),
{
    if ids.len() > 0 {
        let front = ids.drop_last();
        assert forall|i: int| 0 <= i < front.len() implies !has_entry(
            periods,
            #[trigger] front[i],
        ) && has_others(periods, front[i]) by {
            assert(front[i] == ids[i]);
        }
        lemma_none_purged(periods, front);
        let id = ids.last();
        assert(id == ids[ids.len() - 1]);
        let p = id.period();
        assert(periods[p].remove(id) =~= periods[p]);
        assert(periods.insert(p, periods[p]) =~= periods);
    }
}

spec fn has_entry(periods: Map<u32, PeriodEntries>, id: DecisionId) -> bool {
    periods[id.period()].dom().contains(id)
}

spec fn has_others(periods: Map<u32, PeriodEntries>, id: DecisionId) -> bool {
    &&& periods.dom().contains(id.period())
    &&& periods[id.period()] != Map::<DecisionId, Seq<DecisionEntry>>::empty()
}

/// The decisions that a rollback leaves unclaimed stand in rows of which that
/// can be said.
proof fn lemma_unclaimed_among(
    rows: Seq<(DecisionId, Seq<HistoryEntry>)>,
    height: u32,
    ids: Set<DecisionId>,
)
    requires
        forall|i: int|
            0 <= i < rows.len() ==> {
                ||| ids.contains((#[trigger] rows[i]).0)
                ||| current_of(rows[i].1) is Created
                ||| !(current_of(up_to_height(rows[i].1, height)) is Created)
            },
    ensures
        forall|i: int|
            0 <= i < unclaimed_by(rows, height).len() ==> ids.contains(
                #[trigger] unclaimed_by(rows, height)[i],
            ),
    decreases rows.len(),
{
    if rows.len() > 0 {
        let front = rows.drop_last();
        assert forall|i: int| 0 <= i < front.len() implies {
            ||| ids.contains((#[trigger] front[i]).0)
            ||| current_of(front[i].1) is Created
            ||| !(current_of(up_to_height(front[i].1, height)) is Created)
        } by {
            assert(front[i] == rows[i]);
        }
        lemma_unclaimed_among(front, height, ids);
        assert(rows.last() == rows[rows.len() - 1]);
        let before = unclaimed_by(front, height);
        let after = unclaimed_by(rows, height);
        assert forall|i: int| 0 <= i < after.len() implies ids.contains(#[trigger] after[i]) by {
            if i < before.len() {
                assert(after[i] == before[i]);
            }
        }
    }
}

/// What is known of decisions, and of others that nothing happened to them.
pub open spec fn with_blank(
    histories: Map<DecisionId, Seq<HistoryEntry>>,
    ids: Set<DecisionId>,
) -> Map<DecisionId, Seq<HistoryEntry>> {
    Map::new(
        |id: DecisionId| histories.dom().contains(id) || ids.contains(id),
        |id: DecisionId|
            if histories.dom().contains(id) {
                histories[id]
            } else {
                Seq::empty()
            },
    )
}

/// Disconnecting a block takes decisions back to where they were: those that
/// were claimed in it can be claimed again, those that were put to the vote or
/// resolved wait again, the periods that came into sight are gone, and the old
/// prices are back. What is left of a claim is a row that says that nothing
/// happened. `back` is what is left of `after` when the claims are taken back.
pub proof fn disconnecting_undoes_claiming(
    view: DecisionsView,
    voted: DecisionsView,
    applied: DecisionsView,
    after: DecisionsView,
    back: DecisionsView,
    ids: Seq<DecisionId>,
    minting_undo: Map<u32, u32>,
    height: u32,
    current_period: u32,
)
    requires
        height > 0,
        has_rows(view.pricing),
        has_rows(after.histories),
        happened_under(view.histories, height),
        !view.pricing_undo.dom().contains(height),
        current_period + FUTURE_PERIODS < u32::MAX,
        highest_or_zero(view.periods) < u32::MAX,
        all_put_to_vote(with_snapshot(view, height), due(view, current_period), height) == Ok::<
            DecisionsView,
            Error,
        >(voted),
        claims_added(voted, applied, ids, height),
        forall|i: int| 0 <= i < ids.len() ==> is_fresh(view, #[trigger] ids[i]),
        after == (DecisionsView {
            histories: after.histories,
            pricing: after.pricing,
            ..periods_opened(applied, height, current_period)
        }),
        happened_at(applied.histories, after.histories, height),
        back == (DecisionsView {
            periods: without_ids(after.periods, ids.to_set()),
            ..after
        }),
    ensures
        can_go(after.periods, ids.to_set()),
        decisions_before(
            back,
            minting_undo.insert(height, highest_or_zero(view.periods)),
            height,
        ) == (DecisionsView { histories: with_blank(view.histories, ids.to_set()), ..view }),
{
    let start = with_snapshot(view, height);
    lemma_put_to_vote(start, due(view, current_period), height, voted);
    let highest = highest_or_zero(view.periods);
    let target = (current_period + FUTURE_PERIODS - 1) as u32;
    let gone = ids.to_set();
    assert forall|i: int| 0 <= i < ids.len() implies is_fresh(voted, #[trigger] ids[i]) by {
        lemma_still_fresh(view, voted, height, current_period, ids[i]);
    }
    lemma_claims_can_go(voted, applied, ids, height, target);
    assert(after.periods == minted(applied.periods, target));
    assert(back.periods == minted(view.periods, target));
    lemma_keys_under_highest(view.periods);
    lemma_unminting(view.periods, highest, target + 1);
    lemma_minted_keys(view.periods, highest + 1, target + 1);
    lemma_minted_rows(view.periods, highest + 1, target + 1);
    let before = (height - 1) as u32;
    let rows = rows_of(after.histories);
    assert(is_rows_of(rows, after.histories));
    assert forall|id: DecisionId| #[trigger] after.histories.dom().contains(id) implies {
        &&& gone.contains(id) || view.histories.dom().contains(id)
        &&& gone.contains(id) ==> up_to_height(after.histories[id], before).len() == 0
        &&& !gone.contains(id) ==> up_to_height(after.histories[id], before)
            == view.histories[id]
        &&& gone.contains(id) && view.histories.dom().contains(id) ==> view.histories[id].len()
            == 0
    } by {
        assert(applied.histories.dom().contains(id));
        assert(gone.contains(id) <==> ids.contains(id));
        if gone.contains(id) {
            let i = ids.index_of(id);
            assert(is_fresh(view, ids[i]));
            lemma_claim_rolled_back(height);
        } else {
            assert(voted.histories.dom().contains(id));
            assert forall|i: int| 0 <= i < view.histories[id].len() implies (
            #[trigger] view.histories[id][i]).1 <= before by {}
            rollback_keeps_earlier_entries(view.histories[id], before);
        }
    }
    assert forall|i: int| 0 <= i < rows.len() implies {
        ||| gone.contains((#[trigger] rows[i]).0)
        ||| current_of(rows[i].1) is Created
        ||| !(current_of(up_to_height(rows[i].1, before)) is Created)
    } by {
        lemma_row_of(after.histories, i);
        let id = rows[i].0;
        if !gone.contains(id) {
            assert(applied.histories.dom().contains(id));
            assert(voted.histories.dom().contains(id));
            assert(view.histories.dom().contains(id));
            assert(applied.histories[id] == voted.histories[id]);
        }
    }
    lemma_unclaimed_among(rows, before, gone);
    let unclaimed = unclaimed_by(rows, before);
    assert forall|i: int| 0 <= i < unclaimed.len() implies !has_entry(
        back.periods,
        #[trigger] unclaimed[i],
    ) && has_others(back.periods, unclaimed[i]) by {
        let id = unclaimed[i];
        assert(gone.contains(id));
        assert(is_fresh(voted, ids[ids.index_of(id)]));
        assert(view.periods.dom().contains(id.period()));
        assert(back.periods.dom().contains(id.period()));
        assert(back.periods[id.period()] == view.periods[id.period()]);
    }
    lemma_none_purged(back.periods, unclaimed);
    let rolled = after.histories.map_values(|h: Seq<HistoryEntry>| up_to_height(h, before));
    let blank = with_blank(view.histories, gone);
    assert forall|id: DecisionId| rolled.dom().contains(id) <==> blank.dom().contains(id) by {
        assert(applied.histories.dom().contains(id) <==> voted.histories.dom().contains(id)
            || ids.contains(id));
    }
    assert forall|id: DecisionId| rolled.dom().contains(id) implies rolled[id] == blank[id] by {
        assert(after.histories.dom().contains(id));
        if gone.contains(id) {
            assert(rolled[id] =~= Seq::empty());
            if view.histories.dom().contains(id) {
                assert(view.histories[id] =~= Seq::empty());
            }
        }
    }
    assert(rolled =~= blank);
    lemma_snapshot(view.pricing);
    restoring_undoes_pricing(view.pricing, after.pricing, snapshot_of(view.pricing));
    assert(after.pricing_undo.remove(height) =~= view.pricing_undo);
    assert(periods_up_to(back.periods, highest) == view.periods);
    assert(decisions_before(back, minting_undo.insert(height, highest), height) =~= (
    DecisionsView { histories: blank, ..view }));
}

proof fn lemma_claim_rolled_back(height: u32)
    requires
        height > 0,
    ensures
        up_to_height(claim_history(height), (height - 1) as u32).len() == 0,
{
    let list = claim_history(height);
    let kept = |e: HistoryEntry| e.1 <= (height - 1) as u32;
    assert(list.drop_last() =~= Seq::empty());
    reveal(Seq::filter);
    assert(list.drop_last().filter(kept).len() == 0);
    assert(!kept(list.last()));
}

/// A decision that is fresh when a block opens is not put to the vote.
pub proof fn lemma_still_fresh(
    view: DecisionsView,
    voted: DecisionsView,
    height: u32,
    current_period: u32,
    id: DecisionId,
)
    requires
        all_put_to_vote(with_snapshot(view, height), due(view, current_period), height) == Ok::<
            DecisionsView,
            Error,
        >(voted),
        is_fresh(view, id),
    ensures
        is_fresh(voted, id),
{
    lemma_put_to_vote(with_snapshot(view, height), due(view, current_period), height, voted);
    if voted.histories.dom().contains(id) {
        assert(view.histories.dom().contains(id));
    }
}

} // verus!
