//! Transactions that claim decisions and create markets.

use vstd::prelude::*;

use crate::bytes::{boxed, empty_boxed, lemma_empty_boxed};
use crate::state::decisions::database::{claimed, without_entry, Dbs, DecisionsView};
use crate::state::decisions::types::{Decision, DecisionId, DecisionType};
use crate::state::{Error, Reason};
use crate::types::encoding::Encode;
use crate::types::transaction::{
    ClaimDecisionPayload, DecisionClaimEntry, FilledTransaction, TransactionData,
};
use crate::types::{boxed_duplicate, Address, Duplicate, Txid};

verus! {

/// The tags of a claim.
pub open spec fn tags_of(entry: DecisionClaimEntry) -> Box<[String]> {
    match entry.tags {
        Some(tags) => tags,
        None => empty_boxed(),
    }
}

/// The decision that a claim makes.
pub open spec fn decision_of(
    entry: DecisionClaimEntry,
    decision_type: DecisionType,
    maker: Address,
) -> Decision {
    Decision {
        market_maker_pubkey_hash: maker.0,
        decision_type,
        header: entry.header,
        description: entry.description,
        option_0_label: entry.option_0_label,
        option_1_label: entry.option_1_label,
        tags: tags_of(entry),
    }
}

/// Who claims, and when.
pub struct Claimer {
    pub maker: Address,
    pub txid: Txid,
    pub height: u32,
}

/// A decision is claimed. `aligned` says whether the range of a scaled decision
/// is a whole number of increments.
pub open spec fn entry_claimed(
    view: DecisionsView,
    entry: DecisionClaimEntry,
    decision_type: DecisionType,
    by: Claimer,
    aligned: bool,
) -> Result<DecisionsView, Error> {
    let decision_id = DecisionId(entry.decision_id_bytes);
    match Decision::problem(
        decision_type,
        entry.header,
        entry.description,
        tags_of(entry)@,
        aligned,
    ) {
        Some(e) => Err(e),
        None => claimed(
            view,
            decision_id,
            decision_of(entry, decision_type, by.maker),
            by.txid,
            by.height,
        ),
    }
}

/// Decisions of one type are claimed.
pub open spec fn entries_claimed(
    view: DecisionsView,
    entries: Seq<DecisionClaimEntry>,
    decision_type: DecisionType,
    by: Claimer,
    aligned: bool,
) -> Result<DecisionsView, Error>
    decreases entries.len(),
{
    if entries.len() == 0 {
        Ok(view)
    } else {
        match entries_claimed(view, entries.drop_last(), decision_type, by, aligned) {
            Err(e) => Err(e),
            Ok(before) => entry_claimed(before, entries.last(), decision_type, by, aligned),
        }
    }
}

/// What is said of each of several claims; of a claim past the end, the answer
/// is no.
pub open spec fn said(answers: Seq<bool>, i: int) -> bool {
    0 <= i < answers.len() && answers[i]
}

/// Decisions of several types are claimed.
pub open spec fn payloads_claimed(
    view: DecisionsView,
    payloads: Seq<ClaimDecisionPayload>,
    by: Claimer,
    aligned: Seq<bool>,
) -> Result<DecisionsView, Error>
    decreases payloads.len(),
{
    if payloads.len() == 0 {
        Ok(view)
    } else {
        match payloads_claimed(view, payloads.drop_last(), by, aligned) {
            Err(e) => Err(e),
            Ok(before) => entries_claimed(
                before,
                payloads.last().decisions@,
                payloads.last().decision_type,
                by,
                said(aligned, payloads.len() - 1),
            ),
        }
    }
}

proof fn lemma_entries_prefix(
    view: DecisionsView,
    entries: Seq<DecisionClaimEntry>,
    decision_type: DecisionType,
    by: Claimer,
    aligned: bool,
    n: int,
)
    requires
        0 <= n <= entries.len(),
        entries_claimed(view, entries.subrange(0, n), decision_type, by, aligned) is Err,
    ensures
        entries_claimed(view, entries, decision_type, by, aligned) == entries_claimed(
            view,
            entries.subrange(0, n),
            decision_type,
            by,
            aligned,
        ),
    decreases entries.len() - n,
{
    if n == entries.len() {
        assert(entries.subrange(0, n) =~= entries);
    } else {
        assert(entries.subrange(0, n + 1).drop_last() =~= entries.subrange(0, n));
        lemma_entries_prefix(view, entries, decision_type, by, aligned, n + 1);
    }
}

pub proof fn lemma_payloads_prefix(
    view: DecisionsView,
    payloads: Seq<ClaimDecisionPayload>,
    by: Claimer,
    aligned: Seq<bool>,
    n: int,
)
    requires
        0 <= n <= payloads.len(),
        payloads_claimed(view, payloads.subrange(0, n), by, aligned) is Err,
    ensures
        payloads_claimed(view, payloads, by, aligned) == payloads_claimed(
            view,
            payloads.subrange(0, n),
            by,
            aligned,
        ),
    decreases payloads.len() - n,
{
    if n == payloads.len() {
        assert(payloads.subrange(0, n) =~= payloads);
    } else {
        assert(payloads.subrange(0, n + 1).drop_last() =~= payloads.subrange(0, n));
        lemma_payloads_prefix(view, payloads, by, aligned, n + 1);
    }
}

/// The decision that a claim makes, if its parts make one.
pub fn make_decision(
    entry: &DecisionClaimEntry,
    decision_type: &DecisionType,
    maker: Address,
    aligned: bool,
) -> (r: Result<Decision, Error>)
    ensures
        match Decision::problem(
            *decision_type,
            entry.header,
            entry.description,
            tags_of(*entry)@,
            aligned,
        ) {
            Some(e) => r == Err::<Decision, Error>(e),
            None => r == Ok::<Decision, Error>(decision_of(*entry, *decision_type, maker)),
        },
{
    let tags: Box<[String]> = match &entry.tags {
        Some(tags) => boxed_duplicate(tags),
        None => {
            let none = boxed(Vec::new());
            proof {
                lemma_empty_boxed(none);
            }
            none
        },
    };
    Decision::new(
        maker.0,
        decision_type.duplicate(),
        entry.header.duplicate(),
        entry.description.duplicate(),
        entry.option_0_label.duplicate(),
        entry.option_1_label.duplicate(),
        tags,
        aligned,
    )
}

pub fn claim_entries(
    decisions: &mut Dbs,
    entries: &Box<[DecisionClaimEntry]>,
    decision_type: &DecisionType,
    maker: Address,
    txid: Txid,
    height: u32,
    aligned: bool,
) -> (r: Result<(), Error>)
    ensures
        match r {
            Ok(()) => entries_claimed(
                old(decisions)@,
                entries@,
                *decision_type,
                Claimer { maker, txid, height },
                aligned,
            ) == Ok::<DecisionsView, Error>(final(decisions)@),
            Err(e) => entries_claimed(
                old(decisions)@,
                entries@,
                *decision_type,
                Claimer { maker, txid, height },
                aligned,
            ) == Err::<DecisionsView, Error>(e),
        },
{
    let ghost by = Claimer { maker, txid, height };
    let ghost start = decisions@;
    let mut i: usize = 0;
    assert(entries@.subrange(0, 0) =~= Seq::empty());
    while i < entries.len()
        invariant
            i <= entries@.len(),
            start == old(decisions)@,
            by == (Claimer { maker, txid, height }),
            entries_claimed(start, entries@.subrange(0, i as int), *decision_type, by, aligned)
                == Ok::<DecisionsView, Error>(decisions@),
        decreases entries@.len() - i,
    {
        let entry = &entries[i];
        proof {
            assert(entries@.subrange(0, i + 1).drop_last() =~= entries@.subrange(0, i as int));
            assert(entries@.subrange(0, i + 1).last() == *entry);
        }
        let decision = match make_decision(entry, decision_type, maker, aligned) {
            Err(e) => {
                proof {
                    lemma_entries_prefix(start, entries@, *decision_type, by, aligned, i + 1);
                }
                return Err(e);
            },
            Ok(decision) => decision,
        };
        let decision_id = DecisionId(entry.decision_id_bytes);
        match decisions.claim_decision(decision_id, decision, txid, Some(height)) {
            Err(e) => {
                proof {
                    lemma_entries_prefix(start, entries@, *decision_type, by, aligned, i + 1);
                }
                return Err(e);
            },
            Ok(()) => {},
        }
        i += 1;
    }
    assert(entries@.subrange(0, i as int) =~= entries@);
    Ok(())
}

/// The owner of the first coin that a transaction spends.
pub open spec fn creator_of(tx: FilledTransaction) -> Result<Address, Error> {
    if tx.spent_utxos@.len() == 0 {
        Err(Error::InvalidTransaction { reason: Reason::Text("No spent UTXOs found") })
    } else {
        Ok(tx.spent_utxos@[0].address)
    }
}

pub fn extract_creator_address(filled_tx: &FilledTransaction) -> (r: Result<Address, Error>)
    ensures
        r == creator_of(*filled_tx),
{
    if filled_tx.spent_utxos.len() == 0 {
        Err(Error::InvalidTransaction { reason: Reason::Text("No spent UTXOs found") })
    } else {
        Ok(filled_tx.spent_utxos[0].address)
    }
}

/// What a transaction that claims decisions makes of them.
pub open spec fn decision_claim_applied(
    view: DecisionsView,
    tx: FilledTransaction,
    height: u32,
    aligned: bool,
) -> Result<DecisionsView, Error> {
    match tx.transaction.data {
        Some(TransactionData::ClaimDecision(payload)) => match creator_of(tx) {
            Err(e) => Err(e),
            Ok(maker) => entries_claimed(
                view,
                payload.decisions@,
                payload.decision_type,
                Claimer { maker, txid: tx.transaction.id(), height },
                aligned,
            ),
        },
        _ => Err(
            Error::InvalidTransaction { reason: Reason::Text("Not a decision claim transaction") },
        ),
    }
}

/// Claims the decisions of a transaction. `aligned` says whether the range of
/// a scaled decision is a whole number of increments.
pub fn apply_decision_claim(
    decisions: &mut Dbs,
    filled_tx: &FilledTransaction,
    block_height: u32,
    aligned: bool,
) -> (r: Result<(), Error>)
    requires
        filled_tx.transaction.encodable(),
    ensures
        match r {
            Ok(()) => decision_claim_applied(old(decisions)@, *filled_tx, block_height, aligned)
                == Ok::<DecisionsView, Error>(final(decisions)@),
            Err(e) => decision_claim_applied(old(decisions)@, *filled_tx, block_height, aligned)
                == Err::<DecisionsView, Error>(e),
        },
{
    match filled_tx.claim_decision() {
        None => Err(
            Error::InvalidTransaction { reason: Reason::Text("Not a decision claim transaction") },
        ),
        Some(claim) => match extract_creator_address(filled_tx) {
            Err(e) => Err(e),
            Ok(maker) => {
                let txid = filled_tx.txid();
                claim_entries(
                    decisions,
                    &claim.decisions,
                    &claim.decision_type,
                    maker,
                    txid,
                    block_height,
                    aligned,
                )
            },
        },
    }
}

/// Claims are taken back.
pub open spec fn entries_unclaimed(view: DecisionsView, entries: Seq<DecisionClaimEntry>)
    -> DecisionsView
    decreases entries.len(),
{
    if entries.len() == 0 {
        view
    } else {
        let before = entries_unclaimed(view, entries.drop_last());
        DecisionsView {
            periods: without_entry(
                before.periods,
                DecisionId(entries.last().decision_id_bytes),
            ),
            ..before
        }
    }
}

pub open spec fn payloads_unclaimed(view: DecisionsView, payloads: Seq<ClaimDecisionPayload>)
    -> DecisionsView
    decreases payloads.len(),
{
    if payloads.len() == 0 {
        view
    } else {
        entries_unclaimed(
            payloads_unclaimed(view, payloads.drop_last()),
            payloads.last().decisions@,
        )
    }
}

pub fn unclaim_entries(decisions: &mut Dbs, entries: &Box<[DecisionClaimEntry]>)
    ensures
        final(decisions)@ == entries_unclaimed(old(decisions)@, entries@),
{
    let mut i: usize = 0;
    assert(entries@.subrange(0, 0) =~= Seq::empty());
    while i < entries.len()
        invariant
            i <= entries@.len(),
            decisions@ == entries_unclaimed(old(decisions)@, entries@.subrange(0, i as int)),
        decreases entries@.len() - i,
    {
        assert(entries@.subrange(0, i + 1).drop_last() =~= entries@.subrange(0, i as int));
        decisions.revert_decision_claim(DecisionId(entries[i].decision_id_bytes));
        i += 1;
    }
    assert(entries@.subrange(0, i as int) =~= entries@);
}

/// Takes the claims of a transaction back.
pub fn revert_decision_claim(decisions: &mut Dbs, filled_tx: &FilledTransaction) -> (r: Result<
    (),
    Error,
>)
    ensures
        match filled_tx.transaction.data {
            Some(TransactionData::ClaimDecision(payload)) => r is Ok && final(decisions)@
                == entries_unclaimed(old(decisions)@, payload.decisions@),
            _ => r == Err::<(), Error>(
                Error::InvalidTransaction {
                    reason: Reason::Text("Not a decision claim transaction"),
                },
            ),
        },
{
    match filled_tx.claim_decision() {
        None => Err(
            Error::InvalidTransaction { reason: Reason::Text("Not a decision claim transaction") },
        ),
        Some(claim) => {
            unclaim_entries(decisions, &claim.decisions);
            Ok(())
        },
    }
}

} // verus!
