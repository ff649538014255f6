//! What holds of valid transactions and blocks.

use vstd::prelude::*;

use crate::mempool::{entry_ids, payload_ids};
use crate::state::decisions::DecisionId;
use crate::state::State;
use crate::types::block::Body;
use crate::types::transaction::{
    ClaimDecisionPayload, DecisionClaimEntry, FilledTransaction, Transaction,
};
use crate::validation::block::{
    all_inputs, body_problem, checked_fee, claims_noted, entries_noted, payloads_noted,
    payloads_of, withdrawal_among, CheckFigures,
};
use crate::validation::market::TradeLimits;

verus! {

/// A valid transaction spends no coin that is committed to a withdrawal.
pub proof fn valid_transactions_spend_no_withdrawal(
    state: State,
    tx: FilledTransaction,
    current_period: u32,
    figures: CheckFigures,
    limits: TradeLimits,
)
    requires
        checked_fee(state, tx, current_period, figures, limits) is Ok,
    ensures
        forall|i: int|
            0 <= i < tx.spent_len() ==> !((#[trigger] tx.spent_utxos@[i]).content
                is BitcoinWithdrawal),
{
    lemma_none_withdrawn(tx, tx.spent_len());
}

proof fn lemma_none_withdrawn(tx: FilledTransaction, n: int)
    requires
        withdrawal_among(tx, n) is None,
    ensures
        forall|i: int|
            0 <= i < n ==> !((#[trigger] tx.spent_utxos@[i]).content is BitcoinWithdrawal),
    decreases n,
{
    if n > 0 {
        lemma_none_withdrawn(tx, n - 1);
    }
}

/// Where the inputs of transaction `i` start among all inputs.
spec fn start_of(txs: Seq<Transaction>, i: int) -> int {
    all_inputs(txs.subrange(0, i)).len() as int
}

proof fn lemma_start(txs: Seq<Transaction>, i: int, n: int)
    requires
        0 <= i < n <= txs.len(),
    ensures
        start_of(txs, i) + txs[i].inputs@.len() <= start_of(txs, n),
        forall|a: int|
            0 <= a < txs[i].inputs@.len() ==> all_inputs(txs.subrange(0, n))[start_of(txs, i) + a]
                == #[trigger] txs[i].inputs@[a],
    decreases n,
{
    let front = txs.subrange(0, n).drop_last();
    assert(front =~= txs.subrange(0, n - 1));
    assert(txs.subrange(0, n).last() == txs[n - 1]);
    if i < n - 1 {
        lemma_start(txs, i, n - 1);
    }
}

/// A valid block spends no coin twice: two inputs, of one transaction or of
/// two, name two coins.
pub proof fn valid_blocks_spend_no_coin_twice(
    state: State,
    filled: Seq<FilledTransaction>,
    body: Body,
    key: Seq<u8>,
    current_period: u32,
    figures: Seq<CheckFigures>,
    limits: TradeLimits,
    i: int,
    a: int,
    j: int,
    b: int,
)
    requires
        body_problem(state, filled, body, key, current_period, figures, limits) is None,
        0 <= i < body.transactions@.len(),
        0 <= a < body.transactions@[i].inputs@.len(),
        0 <= j < body.transactions@.len(),
        0 <= b < body.transactions@[j].inputs@.len(),
        i != j || a != b,
    ensures
        body.transactions@[i].inputs@[a] != body.transactions@[j].inputs@[b],
{
    let txs = body.transactions@;
    let n = txs.len() as int;
    lemma_start(txs, i, n);
    lemma_start(txs, j, n);
    if i < j {
        lemma_start(txs, i, j);
    } else if j < i {
        lemma_start(txs, j, i);
    }
    assert(txs.subrange(0, n) =~= txs);
    let all = all_inputs(txs);
    assert(all[start_of(txs, i) + a] == txs[i].inputs@[a]);
    assert(all[start_of(txs, j) + b] == txs[j].inputs@[b]);
}

/// All decisions that transactions claim, in their order.
pub open spec fn all_claims(txs: Seq<Transaction>) -> Seq<DecisionId>
    decreases txs.len(),
{
    if txs.len() == 0 {
        Seq::empty()
    } else {
        all_claims(txs.drop_last()) + payload_ids(payloads_of(txs.last()))
    }
}

/// A map holds the decisions of a list, and each stands there once.
spec fn lists_once(m: Map<DecisionId, ()>, ids: Seq<DecisionId>) -> bool {
    &&& ids.no_duplicates()
    &&& forall|id: DecisionId| #[trigger] m.dom().contains(id) <==> ids.contains(id)
}

proof fn lemma_listed(m: Map<DecisionId, ()>, ids: Seq<DecisionId>, id: DecisionId)
    requires
        lists_once(m, ids),
        !m.dom().contains(id),
    ensures
        lists_once(m.insert(id, ()), ids.push(id)),
{
    let more = ids.push(id);
    assert forall|x: DecisionId| #[trigger] m.insert(id, ()).dom().contains(x)
        <==> more.contains(x) by {
        if more.contains(x) {
            let k = more.index_of(x);
            if k < ids.len() {
                assert(ids[k] == x);
                assert(ids.contains(x));
            }
        }
        if m.dom().contains(x) {
            let k = ids.index_of(x);
            assert(more[k] == x);
        }
        if x == id {
            assert(more[ids.len() as int] == x);
        }
    }
    assert forall|a: int, b: int| 0 <= a < more.len() && 0 <= b < more.len() && a != b implies
        more[a] != more[b] by {
        if a == ids.len() {
            if ids[b] == id {
                assert(ids.contains(id));
            }
        } else if b == ids.len() {
            if ids[a] == id {
                assert(ids.contains(id));
            }
        }
    }
}

proof fn lemma_entries_once(
    claimed: Map<DecisionId, ()>,
    ids: Seq<DecisionId>,
    entries: Seq<DecisionClaimEntry>,
    after: Map<DecisionId, ()>,
)
    requires
        lists_once(claimed, ids),
        entries_noted(Ok(claimed), entries) == Ok::<Map<DecisionId, ()>, [u8; 3]>(after),
    ensures
        lists_once(after, ids + entry_ids(entries)),
    decreases entries.len(),
{
    if entries.len() == 0 {
        assert(ids + entry_ids(entries) =~= ids);
    } else {
        let front = entries.drop_last();
        let before = entries_noted(Ok(claimed), front)->Ok_0;
        lemma_entries_once(claimed, ids, front, before);
        let id = DecisionId(entries.last().decision_id_bytes);
        lemma_listed(before, ids + entry_ids(front), id);
        assert(ids + entry_ids(entries) =~= (ids + entry_ids(front)).push(id));
    }
}

proof fn lemma_payloads_once(
    claimed: Map<DecisionId, ()>,
    ids: Seq<DecisionId>,
    payloads: Seq<ClaimDecisionPayload>,
    after: Map<DecisionId, ()>,
)
    requires
        lists_once(claimed, ids),
        payloads_noted(Ok(claimed), payloads) == Ok::<Map<DecisionId, ()>, [u8; 3]>(after),
    ensures
        lists_once(after, ids + payload_ids(payloads)),
    decreases payloads.len(),
{
    if payloads.len() == 0 {
        assert(ids + payload_ids(payloads) =~= ids);
    } else {
        let front = payloads.drop_last();
        let last = payloads.last().decisions@;
        match payloads_noted(Ok(claimed), front) {
            Ok(before) => {
                lemma_payloads_once(claimed, ids, front, before);
                lemma_entries_once(before, ids + payload_ids(front), last, after);
                assert(ids + payload_ids(payloads) =~= (ids + payload_ids(front)) + entry_ids(last));
            },
            Err(id) => {
                lemma_error_stays(id, last);
            },
        }
    }
}

proof fn lemma_error_stays(id: [u8; 3], entries: Seq<DecisionClaimEntry>)
    ensures
        entries_noted(Err(id), entries) is Err,
    decreases entries.len(),
{
    if entries.len() > 0 {
        lemma_error_stays(id, entries.drop_last());
    }
}

proof fn lemma_payload_error_stays(id: [u8; 3], payloads: Seq<ClaimDecisionPayload>)
    ensures
        payloads_noted(Err(id), payloads) is Err,
    decreases payloads.len(),
{
    if payloads.len() > 0 {
        lemma_payload_error_stays(id, payloads.drop_last());
        lemma_error_stays(
            payloads_noted(Err(id), payloads.drop_last())->Err_0,
            payloads.last().decisions@,
        );
    }
}

proof fn lemma_claims_once(txs: Seq<Transaction>, after: Map<DecisionId, ()>)
    requires
        claims_noted(txs) == Ok::<Map<DecisionId, ()>, [u8; 3]>(after),
    ensures
        lists_once(after, all_claims(txs)),
    decreases txs.len(),
{
    if txs.len() > 0 {
        let front = txs.drop_last();
        let last = payloads_of(txs.last());
        match claims_noted(front) {
            Ok(before) => {
                lemma_claims_once(front, before);
                lemma_payloads_once(before, all_claims(front), last, after);
            },
            Err(id) => {
                lemma_payload_error_stays(id, last);
            },
        }
    }
}

/// A valid block claims no decision twice.
pub proof fn valid_blocks_claim_no_decision_twice(
    state: State,
    filled: Seq<FilledTransaction>,
    body: Body,
    key: Seq<u8>,
    current_period: u32,
    figures: Seq<CheckFigures>,
    limits: TradeLimits,
)
    requires
        body_problem(state, filled, body, key, current_period, figures, limits) is None,
    ensures
        all_claims(body.transactions@).no_duplicates(),
{
    let claimed = claims_noted(body.transactions@)->Ok_0;
    lemma_claims_once(body.transactions@, claimed);
}

} // verus!
