//! What a transaction that claims decisions must meet.

use vstd::prelude::*;
use vstd::string::StringSliceAdditionalSpecFns;

use crate::state::block::claims::{make_decision, tags_of};
use crate::state::decisions::database::{claim_problem, Dbs, DecisionsView};
use crate::state::decisions::types::{Decision, DecisionId, DecisionType, FUTURE_PERIODS};
use crate::state::{Error, Reason};
use crate::types::transaction::{
    ClaimDecisionPayload, DecisionClaimEntry, FilledTransaction, TransactionData,
};
use crate::types::Address;
use crate::validation::market::{maker_of, MarketValidator};

verus! {

pub struct DecisionValidator;

/// What is worked out elsewhere for a claim: whether the range of a scaled
/// decision is a whole number of increments, and for each entry its fee, if there
/// is a price for its index.
#[derive(Debug)]
pub struct ClaimFigures {
    pub aligned: bool,
    pub listing_fees: Vec<Option<u64>>,
}

/// Two lists hold the same texts.
pub open spec fn same_texts(a: Seq<String>, b: Seq<String>) -> bool {
    a.len() == b.len() && forall|i: int| 0 <= i < a.len() ==> (#[trigger] a[i])@ == b[i]@
}

fn are_same_texts(a: &Box<[String]>, b: &Box<[String]>) -> (r: bool)
    ensures
        r == same_texts(a@, b@),
{
    if a.len() != b.len() {
        return false;
    }
    let mut i: usize = 0;
    while i < a.len()
        invariant
            i <= a@.len() == b@.len(),
            forall|j: int| 0 <= j < i ==> (#[trigger] a@[j])@ == b@[j]@,
        decreases a@.len() - i,
    {
        if a[i] != b[i] {
            assert(a@[i as int]@ != b@[i as int]@);
            return false;
        }
        i += 1;
    }
    true
}

/// What is wrong with the labels of an entry on a category.
pub open spec fn labels_problem(options: Seq<String>, entry: DecisionClaimEntry) -> Option<Error> {
    match entry.option_labels {
        None => Some(
            Error::InvalidTransaction {
                reason: Reason::Text("Category claim entry must have option_labels"),
            },
        ),
        Some(labels) => if labels@.len() < 2 {
            Some(
                Error::InvalidTransaction {
                    reason: Reason::Text("Category claim entry must have at least 2 option_labels"),
                },
            )
        } else if !same_texts(labels@, options) {
            Some(
                Error::InvalidTransaction {
                    reason: Reason::LabelsDoNotMatch {
                        labels: labels@.len() as usize,
                        options: options.len() as usize,
                    },
                },
            )
        } else {
            None
        },
    }
}

/// The first problem with the labels of entries on a category.
pub open spec fn all_labels_problem(
    options: Seq<String>,
    entries: Seq<DecisionClaimEntry>,
) -> Option<Error>
    decreases entries.len(),
{
    if entries.len() == 0 {
        None
    } else {
        match all_labels_problem(options, entries.drop_last()) {
            Some(e) => Some(e),
            None => labels_problem(options, entries.last()),
        }
    }
}

/// What is wrong with the shape of a claim: on a category it has two entries or
/// more, each labelled with the options; of another type it has one, without
/// labels.
pub open spec fn shape_problem(payload: ClaimDecisionPayload) -> Option<Error> {
    match payload.decision_type {
        DecisionType::Category { options } => if payload.decisions@.len() < 2 {
            Some(
                Error::InvalidTransaction {
                    reason: Reason::CategoryClaimSize(payload.decisions@.len() as usize),
                },
            )
        } else if options@.len() < 2 {
            Some(
                Error::InvalidTransaction {
                    reason: Reason::Text("Category claim requires at least 2 options"),
                },
            )
        } else {
            all_labels_problem(options@, payload.decisions@)
        },
        _ => if payload.decisions@.len() != 1 {
            Some(
                Error::InvalidTransaction {
                    reason: Reason::ClaimSize {
                        scaled: payload.decision_type is Scaled,
                        got: payload.decisions@.len() as usize,
                    },
                },
            )
        } else if payload.decisions@[0].option_labels is Some {
            Some(
                Error::InvalidTransaction {
                    reason: Reason::Text("option_labels must not be set for binary/scaled decisions"),
                },
            )
        } else {
            None
        },
    }
}

/// How a problem with a claim is reported.
pub open spec fn as_id_problem(e: Error) -> Error {
    match e {
        Error::DecisionNotAvailable { decision_id, reason } => Error::InvalidDecisionId { reason },
        Error::DecisionAlreadyClaimed { decision_id } => Error::InvalidDecisionId {
            reason: Reason::AlreadyClaimed(decision_id),
        },
        other => other,
    }
}

/// Why an entry cannot be claimed.
pub open spec fn entry_problem(
    view: DecisionsView,
    entry: DecisionClaimEntry,
    decision_type: DecisionType,
    current_period: u32,
    aligned: bool,
) -> Option<Error> {
    match Decision::problem(
        decision_type,
        entry.header,
        entry.description,
        tags_of(entry)@,
        aligned,
    ) {
        Some(e) => Some(e),
        None => match claim_problem(view, DecisionId(entry.decision_id_bytes), current_period) {
            Some(e) => Some(as_id_problem(e)),
            None => None,
        },
    }
}

/// Why the first of some entries that cannot be claimed cannot.
pub open spec fn entries_problem(
    view: DecisionsView,
    entries: Seq<DecisionClaimEntry>,
    decision_type: DecisionType,
    current_period: u32,
    aligned: bool,
) -> Option<Error>
    decreases entries.len(),
{
    if entries.len() == 0 {
        None
    } else {
        match entries_problem(view, entries.drop_last(), decision_type, current_period, aligned) {
            Some(e) => Some(e),
            None => entry_problem(view, entries.last(), decision_type, current_period, aligned),
        }
    }
}

/// The fee of an entry; past the end there is no price.
pub open spec fn fee_at(fees: Seq<Option<u64>>, i: int) -> Option<u64> {
    if 0 <= i < fees.len() {
        fees[i]
    } else {
        None
    }
}

/// The fees of all standard decisions among some entries.
pub open spec fn entries_fee(entries: Seq<DecisionClaimEntry>, fees: Seq<Option<u64>>) -> Result<
    u64,
    Error,
>
    decreases entries.len(),
{
    if entries.len() == 0 {
        Ok(0)
    } else {
        match entries_fee(entries.drop_last(), fees) {
            Err(e) => Err(e),
            Ok(before) => if !DecisionId(entries.last().decision_id_bytes).standard() {
                Ok(before)
            } else {
                match fee_at(fees, entries.len() - 1) {
                    None => Err(
                        Error::InvalidTransaction {
                            reason: Reason::Text("no fee for decision index"),
                        },
                    ),
                    Some(fee) => if before + fee > u64::MAX {
                        Err(
                            Error::InvalidTransaction {
                                reason: Reason::Text("Listing fee overflow"),
                            },
                        )
                    } else {
                        Ok((before + fee) as u64)
                    },
                }
            },
        }
    }
}

/// The fee that a claim owes, or why it cannot be made.
pub open spec fn payload_fee(
    view: DecisionsView,
    payload: ClaimDecisionPayload,
    current_period: u32,
    aligned: bool,
    fees: Seq<Option<u64>>,
) -> Result<u64, Error> {
    match shape_problem(payload) {
        Some(e) => Err(e),
        None => match entries_problem(
            view,
            payload.decisions@,
            payload.decision_type,
            current_period,
            aligned,
        ) {
            Some(e) => Err(e),
            None => entries_fee(payload.decisions@, fees),
        },
    }
}

proof fn lemma_labels_prefix(options: Seq<String>, entries: Seq<DecisionClaimEntry>, n: int)
    requires
        0 <= n <= entries.len(),
        all_labels_problem(options, entries.subrange(0, n)) is Some,
    ensures
        all_labels_problem(options, entries) == all_labels_problem(
            options,
            entries.subrange(0, n),
        ),
    decreases entries.len() - n,
{
    if n == entries.len() {
        assert(entries.subrange(0, n) =~= entries);
    } else {
        assert(entries.subrange(0, n + 1).drop_last() =~= entries.subrange(0, n));
        lemma_labels_prefix(options, entries, n + 1);
    }
}

proof fn lemma_problem_prefix(
    view: DecisionsView,
    entries: Seq<DecisionClaimEntry>,
    decision_type: DecisionType,
    current_period: u32,
    aligned: bool,
    n: int,
)
    requires
        0 <= n <= entries.len(),
        entries_problem(
            view,
            entries.subrange(0, n),
            decision_type,
            current_period,
            aligned,
        ) is Some,
    ensures
        entries_problem(view, entries, decision_type, current_period, aligned) == entries_problem(
            view,
            entries.subrange(0, n),
            decision_type,
            current_period,
            aligned,
        ),
    decreases entries.len() - n,
{
    if n == entries.len() {
        assert(entries.subrange(0, n) =~= entries);
    } else {
        assert(entries.subrange(0, n + 1).drop_last() =~= entries.subrange(0, n));
        lemma_problem_prefix(view, entries, decision_type, current_period, aligned, n + 1);
    }
}

proof fn lemma_fee_prefix(entries: Seq<DecisionClaimEntry>, fees: Seq<Option<u64>>, n: int)
    requires
        0 <= n <= entries.len(),
        entries_fee(entries.subrange(0, n), fees) is Err,
    ensures
        entries_fee(entries, fees) == entries_fee(entries.subrange(0, n), fees),
    decreases entries.len() - n,
{
    if n == entries.len() {
        assert(entries.subrange(0, n) =~= entries);
    } else {
        assert(entries.subrange(0, n + 1).drop_last() =~= entries.subrange(0, n));
        lemma_fee_prefix(entries, fees, n + 1);
    }
}

/// Why a transaction does not pay the listing fees.
pub open spec fn fee_shortfall(tx: FilledTransaction, listing_fee: u64) -> Option<Error> {
    if listing_fee == 0 {
        None
    } else {
        match tx.fee() {
            Err(_) => Some(
                Error::InvalidTransaction { reason: Reason::Text("Failed to compute tx fee") },
            ),
            Ok(None) => Some(Error::NotEnoughValueIn),
            Ok(Some(fee)) => if fee < listing_fee {
                Some(
                    Error::InvalidTransaction {
                        reason: Reason::ListingFeeTooLow {
                            fee_sats: fee,
                            required_sats: listing_fee,
                        },
                    },
                )
            } else {
                None
            },
        }
    }
}

/// Why a transaction that claims decisions is not valid.
pub open spec fn claim_tx_problem(
    view: DecisionsView,
    tx: FilledTransaction,
    current_period: u32,
    figures: ClaimFigures,
) -> Option<Error> {
    match tx.transaction.data {
        Some(TransactionData::ClaimDecision(payload)) => match maker_of(tx) {
            Err(e) => Some(e),
            Ok(_) => match payload_fee(
                view,
                payload,
                current_period,
                figures.aligned,
                figures.listing_fees@,
            ) {
                Err(e) => Some(e),
                Ok(fee) => fee_shortfall(tx, fee),
            },
        },
        _ => Some(
            Error::InvalidTransaction { reason: Reason::Text("Not a decision claim transaction") },
        ),
    }
}

fn check_labels(options: &Box<[String]>, entry: &DecisionClaimEntry) -> (r: Result<(), Error>)
    ensures
        labels_problem(options@, *entry) == match r {
            Ok(()) => None::<Error>,
            Err(e) => Some(e),
        },
{
    match &entry.option_labels {
        None => Err(
            Error::InvalidTransaction {
                reason: Reason::Text("Category claim entry must have option_labels"),
            },
        ),
        Some(labels) => {
            if labels.len() < 2 {
                Err(
                    Error::InvalidTransaction {
                        reason: Reason::Text("Category claim entry must have at least 2 option_labels"),
                    },
                )
            } else if !are_same_texts(labels, options) {
                Err(
                    Error::InvalidTransaction {
                        reason: Reason::LabelsDoNotMatch {
                            labels: labels.len(),
                            options: options.len(),
                        },
                    },
                )
            } else {
                Ok(())
            }
        },
    }
}

fn check_shape(payload: &ClaimDecisionPayload) -> (r: Result<(), Error>)
    ensures
        shape_problem(*payload) == match r {
            Ok(()) => None::<Error>,
            Err(e) => Some(e),
        },
{
    let entries = &payload.decisions;
    match &payload.decision_type {
        DecisionType::Category { options } => {
            if entries.len() < 2 {
                return Err(
                    Error::InvalidTransaction {
                        reason: Reason::CategoryClaimSize(entries.len()),
                    },
                );
            }
            if options.len() < 2 {
                return Err(
                    Error::InvalidTransaction {
                        reason: Reason::Text("Category claim requires at least 2 options"),
                    },
                );
            }
            let mut i: usize = 0;
            assert(entries@.subrange(0, 0) =~= Seq::empty());
            while i < entries.len()
                invariant
                    i <= entries@.len(),
                    *entries == payload.decisions,
                    payload.decision_type == (DecisionType::Category { options: *options }),
                    entries@.len() >= 2,
                    options@.len() >= 2,
                    all_labels_problem(options@, entries@.subrange(0, i as int)) is None,
                decreases entries@.len() - i,
            {
                assert(entries@.subrange(0, i + 1).drop_last() =~= entries@.subrange(0, i as int));
                match check_labels(options, &entries[i]) {
                    Err(e) => {
                        proof {
                            lemma_labels_prefix(options@, entries@, i + 1);
                        }
                        return Err(e);
                    },
                    Ok(()) => {},
                }
                i += 1;
            }
            assert(entries@.subrange(0, i as int) =~= entries@);
            Ok(())
        },
        _ => {
            if entries.len() != 1 {
                return Err(
                    Error::InvalidTransaction {
                        reason: Reason::ClaimSize {
                            scaled: matches!(payload.decision_type, DecisionType::Scaled { .. }),
                            got: entries.len(),
                        },
                    },
                );
            }
            if entries[0].option_labels.is_some() {
                return Err(
                    Error::InvalidTransaction {
                        reason: Reason::Text("option_labels must not be set for binary/scaled decisions"),
                    },
                );
            }
            Ok(())
        },
    }
}

fn check_entry(
    decisions: &Dbs,
    entry: &DecisionClaimEntry,
    decision_type: &DecisionType,
    maker: Address,
    current_period: u32,
    aligned: bool,
) -> (r: Result<(), Error>)
    requires
        current_period + FUTURE_PERIODS < u32::MAX,
    ensures
        entry_problem(decisions@, *entry, *decision_type, current_period, aligned) == match r {
            Ok(()) => None::<Error>,
            Err(e) => Some(e),
        },
{
    match make_decision(entry, decision_type, maker, aligned) {
        Err(e) => return Err(e),
        Ok(_) => {},
    }
    match decisions.validate_decision_claim(DecisionId(entry.decision_id_bytes), current_period) {
        Err(Error::DecisionNotAvailable { decision_id: _, reason }) => Err(
            Error::InvalidDecisionId { reason },
        ),
        Err(Error::DecisionAlreadyClaimed { decision_id }) => Err(
            Error::InvalidDecisionId { reason: Reason::AlreadyClaimed(decision_id) },
        ),
        Err(other) => Err(other),
        Ok(()) => Ok(()),
    }
}

/// Adds up the fees of the standard decisions among some entries.
fn sum_fees(entries: &Box<[DecisionClaimEntry]>, fees: &Vec<Option<u64>>) -> (r: Result<u64, Error>)
    ensures
        r == entries_fee(entries@, fees@),
{
    let mut total: u64 = 0;
    let mut i: usize = 0;
    assert(entries@.subrange(0, 0) =~= Seq::empty());
    while i < entries.len()
        invariant
            i <= entries@.len(),
            entries_fee(entries@.subrange(0, i as int), fees@) == Ok::<u64, Error>(total),
        decreases entries@.len() - i,
    {
        assert(entries@.subrange(0, i + 1).drop_last() =~= entries@.subrange(0, i as int));
        if DecisionId(entries[i].decision_id_bytes).is_standard() {
            let fee: Option<u64> = if i < fees.len() {
                fees[i]
            } else {
                None
            };
            match fee {
                None => {
                    proof {
                        lemma_fee_prefix(entries@, fees@, i + 1);
                    }
                    return Err(
                        Error::InvalidTransaction {
                            reason: Reason::Text("no fee for decision index"),
                        },
                    );
                },
                Some(fee) => match total.checked_add(fee) {
                    None => {
                        proof {
                            lemma_fee_prefix(entries@, fees@, i + 1);
                        }
                        return Err(
                            Error::InvalidTransaction {
                                reason: Reason::Text("Listing fee overflow"),
                            },
                        );
                    },
                    Some(sum) => {
                        total = sum;
                    },
                },
            }
        }
        i += 1;
    }
    assert(entries@.subrange(0, i as int) =~= entries@);
    Ok(total)
}

/// Checks that a transaction pays the listing fees.
pub fn check_listing_fee(tx: &FilledTransaction, listing_fee: u64) -> (r: Result<(), Error>)
    ensures
        fee_shortfall(*tx, listing_fee) == match r {
            Ok(()) => None::<Error>,
            Err(e) => Some(e),
        },
{
    if listing_fee == 0 {
        return Ok(());
    }
    match tx.bitcoin_fee() {
        Err(_) => Err(
            Error::InvalidTransaction { reason: Reason::Text("Failed to compute tx fee") },
        ),
        Ok(None) => Err(Error::NotEnoughValueIn),
        Ok(Some(fee)) => if fee < listing_fee {
            Err(
                Error::InvalidTransaction {
                    reason: Reason::ListingFeeTooLow { fee_sats: fee, required_sats: listing_fee },
                },
            )
        } else {
            Ok(())
        },
    }
}

impl DecisionValidator {
    pub fn parse_decision_id_from_hex(decision_id_hex: &str) -> (r: Result<DecisionId, Error>)
        ensures
            match r {
                Ok(id) => DecisionId::parsed(decision_id_hex.spec_bytes()) == Ok::<Seq<u8>, Error>(
                    id.0@,
                ),
                Err(e) => DecisionId::parsed(decision_id_hex.spec_bytes()) == Err::<
                    Seq<u8>,
                    Error,
                >(e),
            },
    {
        DecisionId::from_hex(decision_id_hex)
    }

    /// Checks a claim, and says what fee it owes. The caller checks that the
    /// transaction pays it.
    pub fn validate_claim_payload(
        decisions: &Dbs,
        payload: &ClaimDecisionPayload,
        market_maker_address: Address,
        current_period: u32,
        figures: &ClaimFigures,
    ) -> (r: Result<u64, Error>)
        requires
            current_period + FUTURE_PERIODS < u32::MAX,
        ensures
            r == payload_fee(
                decisions@,
                *payload,
                current_period,
                figures.aligned,
                figures.listing_fees@,
            ),
    {
        match check_shape(payload) {
            Err(e) => return Err(e),
            Ok(()) => {},
        }
        let entries = &payload.decisions;
        let mut i: usize = 0;
        assert(entries@.subrange(0, 0) =~= Seq::empty());
        while i < entries.len()
            invariant
                i <= entries@.len(),
                *entries == payload.decisions,
                current_period + FUTURE_PERIODS < u32::MAX,
                shape_problem(*payload) is None,
                entries_problem(
                    decisions@,
                    entries@.subrange(0, i as int),
                    payload.decision_type,
                    current_period,
                    figures.aligned,
                ) is None,
            decreases entries@.len() - i,
        {
            assert(entries@.subrange(0, i + 1).drop_last() =~= entries@.subrange(0, i as int));
            match check_entry(
                decisions,
                &entries[i],
                &payload.decision_type,
                market_maker_address,
                current_period,
                figures.aligned,
            ) {
                Err(e) => {
                    proof {
                        lemma_problem_prefix(
                            decisions@,
                            entries@,
                            payload.decision_type,
                            current_period,
                            figures.aligned,
                            i + 1,
                        );
                    }
                    return Err(e);
                },
                Ok(()) => {},
            }
            i += 1;
        }
        assert(entries@.subrange(0, i as int) =~= entries@);
        sum_fees(entries, &figures.listing_fees)
    }

    /// Checks a transaction that claims decisions.
    pub fn validate_complete_decision_claim(
        decisions: &Dbs,
        tx: &FilledTransaction,
        current_period: u32,
        figures: &ClaimFigures,
    ) -> (r: Result<(), Error>)
        requires
            current_period + FUTURE_PERIODS < u32::MAX,
        ensures
            claim_tx_problem(decisions@, *tx, current_period, *figures) == match r {
                Ok(()) => None::<Error>,
                Err(e) => Some(e),
            },
    {
        let payload = match tx.claim_decision() {
            None => return Err(
                Error::InvalidTransaction {
                    reason: Reason::Text("Not a decision claim transaction"),
                },
            ),
            Some(payload) => payload,
        };
        let maker = match MarketValidator::validate_maker_auth(tx) {
            Err(e) => return Err(e),
            Ok(maker) => maker,
        };
        match DecisionValidator::validate_claim_payload(
            decisions,
            payload,
            maker,
            current_period,
            figures,
        ) {
            Err(e) => Err(e),
            Ok(fee) => check_listing_fee(tx, fee),
        }
    }
}

} // verus!
