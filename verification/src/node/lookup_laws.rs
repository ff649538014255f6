//! What holds of what a node looks up.

use vstd::prelude::*;

use crate::node::lookup::{spent_among, waiting_among};
use crate::node::queries::{described, verified_among};
use crate::state::decisions::database::DecisionsView;
use crate::state::decisions::DecisionId;
use crate::types::MainBlockHash;
use crate::types::transaction::output::SpentOutput;
use crate::types::transaction::{InPoint, OutPoint};

verus! {

/// Of the coins asked for, each spent one is given, with what spent it, in the order in
/// which they were asked for.
pub proof fn spent_coins_are_found(
    stxos: Map<OutPoint, SpentOutput>,
    outpoints: Seq<OutPoint>,
    o: OutPoint,
)
    ensures
        spent_among(stxos, Seq::<OutPoint>::empty()).len() == 0,
        stxos.dom().contains(o) ==> spent_among(stxos, outpoints.push(o)) == spent_among(
            stxos,
            outpoints,
        ).push((o, stxos[o])),
        !stxos.dom().contains(o) ==> spent_among(stxos, outpoints.push(o)) == spent_among(
            stxos,
            outpoints,
        ),
{
    assert(outpoints.push(o).drop_last() =~= outpoints);
}

/// Of the coins asked for, each that a waiting transaction spends is given, with its
/// place in it, in the order in which they were asked for.
pub proof fn waiting_spends_are_found(
    spent: Map<OutPoint, InPoint>,
    outpoints: Seq<OutPoint>,
    o: OutPoint,
)
    ensures
        waiting_among(spent, Seq::<OutPoint>::empty()).len() == 0,
        spent.dom().contains(o) ==> waiting_among(spent, outpoints.push(o)) == waiting_among(
            spent,
            outpoints,
        ).push((o, spent[o])),
        !spent.dom().contains(o) ==> waiting_among(spent, outpoints.push(o)) == waiting_among(
            spent,
            outpoints,
        ),
{
    assert(outpoints.push(o).drop_last() =~= outpoints);
}

/// The mainchain blocks that are listed are those in which the block was verified.
pub proof fn verified_inclusions_are_listed(
    results: Seq<(MainBlockHash, bool)>,
    hash: MainBlockHash,
    verified: bool,
)
    ensures
        verified_among(Seq::<(MainBlockHash, bool)>::empty()).len() == 0,
        verified ==> verified_among(results.push((hash, verified))) == verified_among(results).push(
            hash,
        ),
        !verified ==> verified_among(results.push((hash, verified))) == verified_among(results),
{
    assert(results.push((hash, verified)).drop_last() =~= results);
}

/// The decisions of a market are described as they were claimed, and those that were
/// not claimed are left out.
pub proof fn decisions_are_described_as_claimed(
    view: DecisionsView,
    ids: Seq<DecisionId>,
    id: DecisionId,
)
    ensures
        ({
            let p = id.period();
            let claimed = view.periods.dom().contains(p) && view.periods[p].dom().contains(id)
                && view.periods[p][id][0].decision is Some;
            &&& described(view, ids).dom().contains(id) <==> ids.contains(id) && claimed
            &&& described(view, ids).dom().contains(id) ==> Some(described(view, ids)[id])
                == view.periods[p][id][0].decision
        }),
    decreases ids.len(),
{
    if ids.len() > 0 {
        let front = ids.drop_last();
        decisions_are_described_as_claimed(view, front, id);
        assert(ids[ids.len() - 1] == ids.last());
        if front.contains(id) {
            assert(ids[front.index_of(id)] == id);
        }
        if ids.contains(id) && id != ids.last() {
            assert(front[ids.index_of(id)] == id);
        }
    }
}

} // verus!
