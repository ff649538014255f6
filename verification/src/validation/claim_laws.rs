//! What holds of transactions that claim decisions.

use vstd::prelude::*;

use crate::state::block::claims::{
    decision_claim_applied, decision_of, entries_claimed, tags_of, Claimer,
};
use crate::state::decisions::database::{claim_problem, claimed, is_claimed, DecisionsView};
use crate::state::decisions::order::with_claim;
use crate::state::decisions::types::{
    Decision, DecisionEntry, DecisionId, DecisionState, DecisionType, FUTURE_PERIODS,
};
use crate::state::Error;
use crate::types::transaction::{
    total_value, ClaimDecisionPayload, DecisionClaimEntry, FilledTransaction, TransactionData,
};
use crate::types::Txid;
use crate::validation::decision::{
    all_labels_problem, claim_tx_problem, entries_fee, entries_problem, fee_shortfall, payload_fee,
    ClaimFigures,
};

verus! {

/// A decision is a standard one: the highest bit of its id is set.
pub open spec fn is_listed(entry: DecisionClaimEntry) -> bool {
    entry.decision_id_bytes[0] >= 128
}

/// The sum of the listing fees of the standard decisions among some entries.
pub open spec fn listing_sum(entries: Seq<DecisionClaimEntry>, fees: Seq<Option<u64>>) -> int
    decreases entries.len(),
{
    if entries.len() == 0 {
        0
    } else {
        let n = entries.len() - 1;
        listing_sum(entries.drop_last(), fees) + if is_listed(entries.last()) && n < fees.len()
            && fees[n] is Some {
            fees[n]->0 as int
        } else {
            0
        }
    }
}

/// The fee that some claims owe is the sum of the listing fees of the standard
/// decisions among them, each of which has a price.
pub proof fn claims_owe_the_sum_of_the_fees(
    entries: Seq<DecisionClaimEntry>,
    fees: Seq<Option<u64>>,
    owed: u64,
)
    requires
        entries_fee(entries, fees) == Ok::<u64, Error>(owed),
    ensures
        owed == listing_sum(entries, fees),
        forall|i: int|
            0 <= i < entries.len() && is_listed(#[trigger] entries[i]) ==> i < fees.len()
                && fees[i] is Some,
    decreases entries.len(),
{
    if entries.len() > 0 {
        let front = entries.drop_last();
        let before = entries_fee(front, fees)->Ok_0;
        claims_owe_the_sum_of_the_fees(front, fees, before);
        assert(entries[entries.len() - 1] == entries.last());
        assert forall|i: int|
            0 <= i < entries.len() && is_listed(#[trigger] entries[i]) implies i < fees.len()
            && fees[i] is Some by {
            if i < front.len() {
                assert(front[i] == entries[i]);
            }
        }
    }
}

/// A transaction that is found to pay a listing fee leaves over at least as much:
/// what it spends is no less than what it pays out and the fee.
pub proof fn listing_fees_are_paid(tx: FilledTransaction, listing_fee: u64)
    requires
        fee_shortfall(tx, listing_fee) is None,
        listing_fee > 0,
    ensures
        total_value(tx.spent_utxos@) >= total_value(tx.transaction.outputs@) + listing_fee,
{
}

/// A transaction that leaves over a listing fee is found to pay it.
pub proof fn paid_listing_fees_are_accepted(tx: FilledTransaction, listing_fee: u64)
    requires
        total_value(tx.spent_utxos@) <= u64::MAX,
        total_value(tx.spent_utxos@) >= total_value(tx.transaction.outputs@) + listing_fee,
    ensures
        fee_shortfall(tx, listing_fee) is None,
{
}

/// A claim that is found valid leaves over at least the sum of the listing fees of
/// its standard decisions.
pub proof fn valid_claims_pay_their_listing_fees(
    view: DecisionsView,
    tx: FilledTransaction,
    current_period: u32,
    figures: ClaimFigures,
    payload: ClaimDecisionPayload,
)
    requires
        claim_tx_problem(view, tx, current_period, figures) is None,
        tx.transaction.data == Some(TransactionData::ClaimDecision(payload)),
    ensures
        listing_sum(payload.decisions@, figures.listing_fees@) > 0 ==> total_value(
            tx.spent_utxos@,
        ) >= total_value(tx.transaction.outputs@) + listing_sum(
            payload.decisions@,
            figures.listing_fees@,
        ),
        forall|i: int|
            0 <= i < payload.decisions@.len() && is_listed(#[trigger] payload.decisions@[i])
                ==> i < figures.listing_fees@.len() && figures.listing_fees@[i] is Some,
{
    let owed = payload_fee(
        view,
        payload,
        current_period,
        figures.aligned,
        figures.listing_fees@,
    )->Ok_0;
    claims_owe_the_sum_of_the_fees(payload.decisions@, figures.listing_fees@, owed);
    if owed > 0 {
        listing_fees_are_paid(tx, owed);
    }
}

proof fn lemma_no_entry_problem(
    view: DecisionsView,
    entries: Seq<DecisionClaimEntry>,
    decision_type: DecisionType,
    current_period: u32,
    aligned: bool,
    i: int,
)
    requires
        entries_problem(view, entries, decision_type, current_period, aligned) is None,
        0 <= i < entries.len(),
    ensures
        claim_problem(view, DecisionId(entries[i].decision_id_bytes), current_period) is None,
        Decision::problem(
            decision_type,
            entries[i].header,
            entries[i].description,
            tags_of(entries[i])@,
            aligned,
        ) is None,
    decreases entries.len(),
{
    if i < entries.len() - 1 {
        lemma_no_entry_problem(
            view,
            entries.drop_last(),
            decision_type,
            current_period,
            aligned,
            i,
        );
    }
}

/// A claim that is found valid claims decisions that nobody has claimed, that are
/// not being voted on, and whose period is in sight. A standard decision is of a
/// period that is not over, and for which there is a price. It is made by the
/// owner of the first coin that is spent.
pub proof fn valid_claims_claim_what_is_free(
    view: DecisionsView,
    tx: FilledTransaction,
    current_period: u32,
    figures: ClaimFigures,
    payload: ClaimDecisionPayload,
    i: int,
)
    requires
        claim_tx_problem(view, tx, current_period, figures) is None,
        tx.transaction.data == Some(TransactionData::ClaimDecision(payload)),
        0 <= i < payload.decisions@.len(),
    ensures
        tx.spent_utxos@.len() > 0,
        ({
            let id = DecisionId(payload.decisions@[i].decision_id_bytes);
            let p = id.period();
            &&& forall|k: int|
                view.periods.dom().contains(p) && view.periods[p].dom().contains(id) && 0 <= k
                    < view.periods[p][id].len() ==> (
                #[trigger] view.periods[p][id][k]).decision is None
            &&& view.histories.dom().contains(id) && view.histories[id].len() > 0
                ==> view.histories[id].last().0 != DecisionState::Voting
            &&& p < current_period + FUTURE_PERIODS
            &&& is_listed(payload.decisions@[i]) ==> current_period <= p
                && view.pricing.dom().contains(p)
        }),
{
    lemma_no_entry_problem(
        view,
        payload.decisions@,
        payload.decision_type,
        current_period,
        figures.aligned,
        i,
    );
    let id = DecisionId(payload.decisions@[i].decision_id_bytes);
    assert(!is_claimed(view, id));
}

/// A claim of a category has two entries or more, each with the labels of the
/// options; another claim has one entry, without labels.
pub proof fn valid_claims_have_a_shape(
    view: DecisionsView,
    tx: FilledTransaction,
    current_period: u32,
    figures: ClaimFigures,
    payload: ClaimDecisionPayload,
)
    requires
        claim_tx_problem(view, tx, current_period, figures) is None,
        tx.transaction.data == Some(TransactionData::ClaimDecision(payload)),
    ensures
        match payload.decision_type {
            DecisionType::Category { options } => {
                &&& payload.decisions@.len() >= 2
                &&& options@.len() >= 2
                &&& forall|i: int| #![trigger payload.decisions@[i]]
                    0 <= i < payload.decisions@.len() ==> {
                        &&& payload.decisions@[i].option_labels is Some
                        &&& payload.decisions@[i].option_labels->0@.len() == options@.len()
                        &&& forall|k: int|
                            0 <= k < options@.len() ==> (
                            #[trigger] payload.decisions@[i].option_labels->0@[k])@
                                == options@[k]@
                    }
            },
            _ => {
                &&& payload.decisions@.len() == 1
                &&& payload.decisions@[0].option_labels is None
            },
        },
{
    match payload.decision_type {
        DecisionType::Category { options } => {
            assert forall|i: int| #![trigger payload.decisions@[i]]
                0 <= i < payload.decisions@.len() implies {
                &&& payload.decisions@[i].option_labels is Some
                &&& payload.decisions@[i].option_labels->0@.len() == options@.len()
                &&& forall|k: int|
                    0 <= k < options@.len() ==> (
                    #[trigger] payload.decisions@[i].option_labels->0@[k])@ == options@[k]@
            } by {
                lemma_labels(options@, payload.decisions@, i);
            }
        },
        _ => {},
    }
}

proof fn lemma_labels(options: Seq<String>, entries: Seq<DecisionClaimEntry>, i: int)
    requires
        all_labels_problem(options, entries) is None,
        0 <= i < entries.len(),
    ensures
        entries[i].option_labels is Some,
        entries[i].option_labels->0@.len() == options.len(),
        forall|k: int|
            0 <= k < options.len() ==> (#[trigger] entries[i].option_labels->0@[k])@
                == options[k]@,
    decreases entries.len(),
{
    if i < entries.len() - 1 {
        lemma_labels(options, entries.drop_last(), i);
        assert(entries.drop_last()[i] == entries[i]);
    }
}

proof fn lemma_with_claim(list: Seq<DecisionEntry>, entry: DecisionEntry)
    requires
        list.len() == 0,
    ensures
        with_claim(list, entry) == seq![entry],
{
}

/// A claimed decision is what the claim says: its text, its type, its labels and
/// tags. It belongs to whoever claimed it, and is claimed as of the height of the
/// block. Other decisions, and other periods, stay as they are.
pub proof fn claims_are_recorded_as_made(
    view: DecisionsView,
    id: DecisionId,
    decision: Decision,
    txid: Txid,
    height: u32,
    after: DecisionsView,
)
    requires
        claimed(view, id, decision, txid, height) == Ok::<DecisionsView, Error>(after),
        !(view.periods.dom().contains(id.period()) && view.periods[id.period()].dom().contains(id)),
    ensures
        after.periods.dom().contains(id.period()),
        after.periods[id.period()].dom().contains(id),
        after.periods[id.period()][id].len() == 1,
        after.periods[id.period()][id][0].decision == Some(decision),
        after.periods[id.period()][id][0].decision_id == id,
        after.periods[id.period()][id][0].claiming_txid == txid,
        after.histories.dom().contains(id),
        after.histories[id].len() == 1,
        after.histories[id][0].0 == DecisionState::Claimed,
        after.histories[id][0].1 == height,
        forall|other: DecisionId|
            other != id ==> (#[trigger] after.histories.dom().contains(other)
                <==> view.histories.dom().contains(other)) && after.histories[other]
                == view.histories[other],
        forall|p: u32|
            p != id.period() ==> (#[trigger] after.periods.dom().contains(p)
                <==> view.periods.dom().contains(p)) && after.periods[p] == view.periods[p],
        id.0[0] >= 128 ==> {
            &&& view.pricing.dom().contains(id.period())
            &&& view.pricing[id.period()].claimed < u64::MAX ==> after.pricing[id.period()].claimed
                == view.pricing[id.period()].claimed + 1
            &&& after.pricing[id.period()].p_period == view.pricing[id.period()].p_period
            &&& after.pricing[id.period()].mints == view.pricing[id.period()].mints
        },
        id.0[0] < 128 ==> after.pricing == view.pricing,
        after.pricing_undo == view.pricing_undo,
{
    let entry = DecisionEntry { decision_id: id, decision: Some(decision), claiming_txid: txid };
    lemma_with_claim(Seq::empty(), entry);
}

/// The claims of a transaction belong to the owner of the first coin that it
/// spends, and each is made with the text that its entry gives and the type of
/// the claim.
pub proof fn claims_belong_to_their_maker(
    view: DecisionsView,
    tx: FilledTransaction,
    height: u32,
    aligned: bool,
    after: DecisionsView,
    payload: ClaimDecisionPayload,
    entry: DecisionClaimEntry,
)
    requires
        decision_claim_applied(view, tx, height, aligned) == Ok::<DecisionsView, Error>(after),
        tx.transaction.data == Some(TransactionData::ClaimDecision(payload)),
        payload.decisions@ == seq![entry],
        ({
            let id = DecisionId(entry.decision_id_bytes);
            !(view.periods.dom().contains(id.period()) && view.periods[id.period()].dom().contains(
                id,
            ))
        }),
    ensures
        tx.spent_utxos@.len() > 0,
        ({
            let id = DecisionId(entry.decision_id_bytes);
            let made = after.periods[id.period()][id][0];
            &&& after.periods.dom().contains(id.period())
            &&& after.periods[id.period()].dom().contains(id)
            &&& made.claiming_txid == tx.transaction.id()
            &&& made.decision is Some
            &&& made.decision->0.market_maker_pubkey_hash == tx.spent_utxos@[0].address.0
            &&& made.decision->0.decision_type == payload.decision_type
            &&& made.decision->0.header == entry.header
            &&& made.decision->0.description == entry.description
            &&& made.decision->0.option_0_label == entry.option_0_label
            &&& made.decision->0.option_1_label == entry.option_1_label
            &&& entry.tags is Some ==> made.decision->0.tags == entry.tags->0
            &&& after.histories[id].last().1 == height
        }),
{
    let by = Claimer { maker: tx.spent_utxos@[0].address, txid: tx.transaction.id(), height };
    let entries = payload.decisions@;
    assert(entries.drop_last() =~= Seq::empty());
    assert(entries_claimed(view, entries.drop_last(), payload.decision_type, by, aligned) == Ok::<
        DecisionsView,
        Error,
    >(view));
    let id = DecisionId(entry.decision_id_bytes);
    let decision = decision_of(
        entry,
        payload.decision_type,
        by.maker,
    );
    claims_are_recorded_as_made(view, id, decision, by.txid, height, after);
}

} // verus!
