//! What market transactions must meet.

use vstd::prelude::*;

use crate::state::block::creation::{find_treasury_output, treasury_amount, treasury_output};
use crate::state::decisions::database::{entries_of, Dbs, DecisionsView};
use crate::state::decisions::types::{zero, DecisionId, DecisionType, FUTURE_PERIODS};
use crate::state::markets::database::{account_of, MarketsDatabase, MarketsView};
use crate::state::markets::types::{position, DimensionSpec, MarketId, MarketState};
use crate::state::voting::system::full;
use crate::state::{Error, Reason};
use crate::table::Table;
use crate::types::transaction::{
    magnitude, total_value, ClaimDecisionPayload, DecisionClaimEntry, FilledTransaction,
    TransactionData,
};
use crate::types::{Address, BlockHash, Duplicate, Real};
use crate::validation::decision::{
    check_listing_fee, fee_shortfall, payload_fee, ClaimFigures, DecisionValidator,
};

verus! {

pub struct MarketValidator;

/// The first place from one on at which shares are negative.
pub open spec fn first_negative(shares: Seq<i64>, i: int) -> Option<int>
    decreases shares.len() - i,
{
    if i >= shares.len() {
        None
    } else if shares[i] < 0 {
        Some(i)
    } else {
        first_negative(shares, i + 1)
    }
}

/// What is wrong with the shares of a new market.
pub open spec fn shares_problem(shares: Seq<i64>) -> Option<Error> {
    match first_negative(shares, 0) {
        Some(i) => Some(
            Error::InvalidTransaction {
                reason: Reason::NegativeShareQuantity { index: i as usize, shares: shares[i] },
            },
        ),
        None => if shares.len() < 2 {
            Some(
                Error::InvalidTransaction { reason: Reason::TooFewOutcomes(shares.len() as usize) },
            )
        } else {
            None
        },
    }
}

/// Who makes a market or claims a decision: the owner of the first coin that
/// the transaction spends.
pub open spec fn maker_of(tx: FilledTransaction) -> Result<Address, Error> {
    if tx.transaction.inputs@.len() == 0 {
        Err(
            Error::InvalidTransaction {
                reason: Reason::Text("Transaction must have at least one input"),
            },
        )
    } else if tx.spent_utxos@.len() == 0 {
        Err(Error::InvalidTransaction { reason: Reason::Text("No spent UTXOs found") })
    } else {
        Ok(tx.spent_utxos@[0].address)
    }
}

impl MarketValidator {
    pub fn validate_maker_auth(tx: &FilledTransaction) -> (r: Result<Address, Error>)
        ensures
            r == maker_of(*tx),
    {
        if tx.inputs().len() == 0 {
            return Err(
                Error::InvalidTransaction {
                    reason: Reason::Text("Transaction must have at least one input"),
                },
            );
        }
        if tx.spent_utxos.len() == 0 {
            return Err(Error::InvalidTransaction { reason: Reason::Text("No spent UTXOs found") });
        }
        Ok(tx.spent_utxos[0].address)
    }

    pub fn validate_market_shares(shares: &Vec<i64>) -> (r: Result<(), Error>)
        ensures
            shares_problem(shares@) == match r {
                Ok(()) => None::<Error>,
                Err(e) => Some(e),
            },
    {
        let mut i: usize = 0;
        while i < shares.len()
            invariant
                i <= shares@.len(),
                first_negative(shares@, 0) == first_negative(shares@, i as int),
            decreases shares@.len() - i,
        {
            if shares[i] < 0 {
                return Err(
                    Error::InvalidTransaction {
                        reason: Reason::NegativeShareQuantity { index: i, shares: shares[i] },
                    },
                );
            }
            i += 1;
        }
        if shares.len() < 2 {
            return Err(
                Error::InvalidTransaction { reason: Reason::TooFewOutcomes(shares.len()) },
            );
        }
        Ok(())
    }
}

pub struct MarketStateValidator;

impl MarketStateValidator {
    pub fn validate_market_state_transition(from_state: MarketState, to_state: MarketState) -> (r:
        Result<(), Error>)
        ensures
            r == if from_state.may_become(to_state) {
                Ok::<(), Error>(())
            } else {
                Err::<(), Error>(
                    Error::InvalidTransaction {
                        reason: Reason::MarketTransition { from: from_state, to: to_state },
                    },
                )
            },
    {
        if from_state.can_transition_to(to_state) {
            Ok(())
        } else {
            Err(
                Error::InvalidTransaction {
                    reason: Reason::MarketTransition { from: from_state, to: to_state },
                },
            )
        }
    }
}

/// What is worked out elsewhere for a market creation: the figures of its
/// claims, the id of the market, and whether its proof-of-work settings are in
/// range.
#[derive(Debug)]
pub struct CreationFigures {
    pub claims: Vec<ClaimFigures>,
    pub market_id: MarketId,
    pub pow_is_valid: bool,
}

/// Whether the range of a claim is a whole number of increments; past the end,
/// it is not.
pub open spec fn aligned_at(claims: Seq<ClaimFigures>, i: int) -> bool {
    0 <= i < claims.len() && claims[i].aligned
}

/// The fees of a claim; past the end there are none.
pub open spec fn fees_at(claims: Seq<ClaimFigures>, i: int) -> Seq<Option<u64>> {
    if 0 <= i < claims.len() {
        claims[i].listing_fees@
    } else {
        Seq::empty()
    }
}

/// The decisions that a market claims, and the fees that it owes for them.
pub struct PendingClaims {
    pub types: Map<DecisionId, DecisionType>,
    pub fees: u64,
}

/// Decisions of one type are listed, none of them twice.
pub open spec fn entries_listed(
    types: Map<DecisionId, DecisionType>,
    entries: Seq<DecisionClaimEntry>,
    decision_type: DecisionType,
) -> Result<Map<DecisionId, DecisionType>, Error>
    decreases entries.len(),
{
    if entries.len() == 0 {
        Ok(types)
    } else {
        match entries_listed(types, entries.drop_last(), decision_type) {
            Err(e) => Err(e),
            Ok(before) => {
                let id = DecisionId(entries.last().decision_id_bytes);
                if before.dom().contains(id) {
                    Err(Error::InvalidTransaction { reason: Reason::DuplicateNewClaim(id) })
                } else {
                    Ok(before.insert(id, decision_type))
                }
            },
        }
    }
}

/// A new claim of a market is checked.
pub open spec fn claim_checked(
    view: DecisionsView,
    before: PendingClaims,
    payload: ClaimDecisionPayload,
    current_period: u32,
    aligned: bool,
    fees: Seq<Option<u64>>,
) -> Result<PendingClaims, Error> {
    match payload_fee(view, payload, current_period, aligned, fees) {
        Err(e) => Err(e),
        Ok(fee) => if before.fees + fee > u64::MAX {
            Err(Error::InvalidTransaction { reason: Reason::Text("Listing fee overflow") })
        } else {
            match entries_listed(before.types, payload.decisions@, payload.decision_type) {
                Err(e) => Err(e),
                Ok(types) => Ok(PendingClaims { types, fees: (before.fees + fee) as u64 }),
            }
        },
    }
}

proof fn lemma_listed_prefix(
    types: Map<DecisionId, DecisionType>,
    entries: Seq<DecisionClaimEntry>,
    decision_type: DecisionType,
    n: int,
)
    requires
        0 <= n <= entries.len(),
        entries_listed(types, entries.subrange(0, n), decision_type) is Err,
    ensures
        entries_listed(types, entries, decision_type) == entries_listed(
            types,
            entries.subrange(0, n),
            decision_type,
        ),
    decreases entries.len() - n,
{
    if n == entries.len() {
        assert(entries.subrange(0, n) =~= entries);
    } else {
        assert(entries.subrange(0, n + 1).drop_last() =~= entries.subrange(0, n));
        lemma_listed_prefix(types, entries, decision_type, n + 1);
    }
}

/// Lists the decisions of a claim.
fn list_entries(
    types: &mut Table<DecisionId, DecisionType>,
    entries: &Box<[DecisionClaimEntry]>,
    decision_type: &DecisionType,
) -> (r: Result<(), Error>)
    ensures
        match r {
            Ok(()) => entries_listed(old(types)@, entries@, *decision_type) == Ok::<
                Map<DecisionId, DecisionType>,
                Error,
            >(final(types)@),
            Err(e) => entries_listed(old(types)@, entries@, *decision_type) == Err::<
                Map<DecisionId, DecisionType>,
                Error,
            >(e),
        },
{
    let ghost start = types@;
    let mut i: usize = 0;
    assert(entries@.subrange(0, 0) =~= Seq::empty());
    while i < entries.len()
        invariant
            i <= entries@.len(),
            start == old(types)@,
            entries_listed(start, entries@.subrange(0, i as int), *decision_type) == Ok::<
                Map<DecisionId, DecisionType>,
                Error,
            >(types@),
        decreases entries@.len() - i,
    {
        assert(entries@.subrange(0, i + 1).drop_last() =~= entries@.subrange(0, i as int));
        let decision_id = DecisionId(entries[i].decision_id_bytes);
        if types.contains(&decision_id) {
            proof {
                lemma_listed_prefix(start, entries@, *decision_type, i + 1);
            }
            return Err(
                Error::InvalidTransaction { reason: Reason::DuplicateNewClaim(decision_id) },
            );
        }
        types.put(decision_id, decision_type.duplicate());
        i += 1;
    }
    assert(entries@.subrange(0, i as int) =~= entries@);
    Ok(())
}

pub open spec fn claims_checked(
    view: DecisionsView,
    payloads: Seq<ClaimDecisionPayload>,
    current_period: u32,
    claims: Seq<ClaimFigures>,
) -> Result<PendingClaims, Error>
    decreases payloads.len(),
{
    if payloads.len() == 0 {
        Ok(PendingClaims { types: Map::empty(), fees: 0 })
    } else {
        match claims_checked(view, payloads.drop_last(), current_period, claims) {
            Err(e) => Err(e),
            Ok(before) => claim_checked(
                view,
                before,
                payloads.last(),
                current_period,
                aligned_at(claims, payloads.len() - 1),
                fees_at(claims, payloads.len() - 1),
            ),
        }
    }
}

/// What is wrong with a categorical dimension on a decision of some type.
pub open spec fn category_problem(decision_type: DecisionType, id: DecisionId, is_new: bool)
    -> Option<Error> {
    match decision_type {
        DecisionType::Category { options } => if options@.len() < 2 {
            Some(
                Error::InvalidTransaction {
                    reason: Reason::Text("Categorical dimensions require at least 2 options"),
                },
            )
        } else {
            None
        },
        _ => if is_new {
            Some(
                Error::InvalidTransaction {
                    reason: Reason::NewDecisionIsNoCategory(id),
                },
            )
        } else {
            Some(
                Error::InvalidTransaction {
                    reason: Reason::DecisionIsNoCategory(id),
                },
            )
        },
    }
}

/// What is wrong with a dimension of a market.
pub open spec fn dimension_problem(
    view: DecisionsView,
    types: Map<DecisionId, DecisionType>,
    spec: DimensionSpec,
) -> Option<Error> {
    let id = spec.id();
    let entries = entries_of(view, id.period());
    if types.dom().contains(id) {
        if spec is Categorical {
            category_problem(types[id], id, true)
        } else {
            None
        }
    } else if !entries.dom().contains(id) {
        Some(Error::InvalidTransaction { reason: Reason::NoReferencedDecision(id) })
    } else {
        match entries[id][0].decision {
            None => Some(
                Error::InvalidTransaction { reason: Reason::ReferencedDecisionNeverClaimed(id) },
            ),
            Some(decision) => if spec is Categorical {
                category_problem(decision.decision_type, id, false)
            } else {
                None
            },
        }
    }
}

pub open spec fn dimensions_problem(
    view: DecisionsView,
    types: Map<DecisionId, DecisionType>,
    specs: Seq<DimensionSpec>,
) -> Option<Error>
    decreases specs.len(),
{
    if specs.len() == 0 {
        None
    } else {
        match dimensions_problem(view, types, specs.drop_last()) {
            Some(e) => Some(e),
            None => dimension_problem(view, types, specs.last()),
        }
    }
}

/// A number from zero to one.
pub open spec fn is_fraction(fee: Real) -> bool {
    !fee.is_nan() && !fee.less(zero()) && !full().less(fee)
}

/// Why a transaction that creates a market is not valid.
pub open spec fn creation_tx_problem(
    view: DecisionsView,
    tx: FilledTransaction,
    current_period: u32,
    claims: Seq<ClaimFigures>,
    market_id: MarketId,
    pow_is_valid: bool,
) -> Option<Error> {
    match tx.transaction.data {
        Some(
            TransactionData::CreateMarket {
                title,
                description,
                dimension_specs,
                new_claims,
                trading_fee,
                tx_pow_hash_selector,
                tx_pow_ordering,
                tx_pow_difficulty,
            },
        ) => match maker_of(tx) {
            Err(e) => Some(e),
            Ok(_) => match claims_checked(view, new_claims@, current_period, claims) {
                Err(e) => Some(e),
                Ok(pending) => if dimension_specs@.len() == 0 {
                    Some(
                        Error::InvalidTransaction {
                            reason: Reason::Text("Market must have at least one dimension"),
                        },
                    )
                } else {
                    match dimensions_problem(view, pending.types, dimension_specs@) {
                        Some(e) => Some(e),
                        None => if trading_fee is Some && !is_fraction(trading_fee->Some_0) {
                            Some(
                                Error::InvalidTransaction {
                                    reason: Reason::TradingFeeOutOfRange(trading_fee->Some_0),
                                },
                            )
                        } else if tx_pow_difficulty is Some && tx_pow_difficulty->Some_0 > 0
                            && !pow_is_valid {
                            Some(
                                Error::InvalidTransaction {
                                    reason: Reason::Text("TX-PoW config invalid"),
                                },
                            )
                        } else {
                            match treasury_output(tx.transaction.outputs@, market_id) {
                                None => Some(
                                    Error::InvalidTransaction {
                                        reason: Reason::NoTreasuryOutput(market_id),
                                    },
                                ),
                                Some(i) => if treasury_amount(tx.transaction.outputs@[i]) == 0 {
                                    Some(
                                        Error::InvalidTransaction {
                                            reason: Reason::Text("CreateMarket treasury output must be positive"),
                                        },
                                    )
                                } else {
                                    fee_shortfall(tx, pending.fees)
                                },
                            }
                        },
                    }
                },
            },
        },
        _ => Some(
            Error::InvalidTransaction { reason: Reason::Text("Not a market creation transaction") },
        ),
    }
}

proof fn lemma_claims_prefix(
    view: DecisionsView,
    payloads: Seq<ClaimDecisionPayload>,
    current_period: u32,
    claims: Seq<ClaimFigures>,
    n: int,
)
    requires
        0 <= n <= payloads.len(),
        claims_checked(view, payloads.subrange(0, n), current_period, claims) is Err,
    ensures
        claims_checked(view, payloads, current_period, claims) == claims_checked(
            view,
            payloads.subrange(0, n),
            current_period,
            claims,
        ),
    decreases payloads.len() - n,
{
    if n == payloads.len() {
        assert(payloads.subrange(0, n) =~= payloads);
    } else {
        assert(payloads.subrange(0, n + 1).drop_last() =~= payloads.subrange(0, n));
        lemma_claims_prefix(view, payloads, current_period, claims, n + 1);
    }
}

proof fn lemma_dimensions_prefix(
    view: DecisionsView,
    types: Map<DecisionId, DecisionType>,
    specs: Seq<DimensionSpec>,
    n: int,
)
    requires
        0 <= n <= specs.len(),
        dimensions_problem(view, types, specs.subrange(0, n)) is Some,
    ensures
        dimensions_problem(view, types, specs) == dimensions_problem(
            view,
            types,
            specs.subrange(0, n),
        ),
    decreases specs.len() - n,
{
    if n == specs.len() {
        assert(specs.subrange(0, n) =~= specs);
    } else {
        assert(specs.subrange(0, n + 1).drop_last() =~= specs.subrange(0, n));
        lemma_dimensions_prefix(view, types, specs, n + 1);
    }
}

fn check_claims(
    decisions: &Dbs,
    payloads: &Box<[ClaimDecisionPayload]>,
    maker: Address,
    current_period: u32,
    claims: &Vec<ClaimFigures>,
) -> (r: Result<(Table<DecisionId, DecisionType>, u64), Error>)
    requires
        current_period + FUTURE_PERIODS < u32::MAX,
    ensures
        match r {
            Ok((types, fees)) => claims_checked(
                decisions@,
                payloads@,
                current_period,
                claims@,
            ) == Ok::<PendingClaims, Error>(PendingClaims { types: types@, fees }),
            Err(e) => claims_checked(decisions@, payloads@, current_period, claims@) == Err::<
                PendingClaims,
                Error,
            >(e),
        },
{
    let mut types: Table<DecisionId, DecisionType> = Table::new();
    let mut fees: u64 = 0;
    let mut i: usize = 0;
    assert(payloads@.subrange(0, 0) =~= Seq::empty());
    while i < payloads.len()
        invariant
            i <= payloads@.len(),
            current_period + FUTURE_PERIODS < u32::MAX,
            claims_checked(decisions@, payloads@.subrange(0, i as int), current_period, claims@)
                == Ok::<PendingClaims, Error>(PendingClaims { types: types@, fees }),
        decreases payloads@.len() - i,
    {
        let payload = &payloads[i];
        proof {
            assert(payloads@.subrange(0, i + 1).drop_last() =~= payloads@.subrange(0, i as int));
            assert(payloads@.subrange(0, i + 1).last() == *payload);
        }
        let none = ClaimFigures { aligned: false, listing_fees: Vec::new() };
        assert(none.listing_fees@ =~= Seq::empty());
        let figures: &ClaimFigures = if i < claims.len() {
            &claims[i]
        } else {
            &none
        };
        let fee: u64 = match DecisionValidator::validate_claim_payload(
            decisions,
            payload,
            maker,
            current_period,
            figures,
        ) {
            Err(e) => {
                proof {
                    lemma_claims_prefix(decisions@, payloads@, current_period, claims@, i + 1);
                }
                return Err(e);
            },
            Ok(fee) => fee,
        };
        fees = match fees.checked_add(fee) {
            None => {
                proof {
                    lemma_claims_prefix(decisions@, payloads@, current_period, claims@, i + 1);
                }
                return Err(
                    Error::InvalidTransaction { reason: Reason::Text("Listing fee overflow") },
                );
            },
            Some(sum) => sum,
        };
        match list_entries(&mut types, &payload.decisions, &payload.decision_type) {
            Err(e) => {
                proof {
                    lemma_claims_prefix(decisions@, payloads@, current_period, claims@, i + 1);
                }
                return Err(e);
            },
            Ok(()) => {},
        }
        i += 1;
    }
    assert(payloads@.subrange(0, i as int) =~= payloads@);
    Ok((types, fees))
}

fn check_category(decision_type: &DecisionType, id: DecisionId, is_new: bool) -> (r: Result<
    (),
    Error,
>)
    ensures
        category_problem(*decision_type, id, is_new) == match r {
            Ok(()) => None::<Error>,
            Err(e) => Some(e),
        },
{
    match decision_type {
        DecisionType::Category { options } => if options.len() < 2 {
            Err(
                Error::InvalidTransaction {
                    reason: Reason::Text("Categorical dimensions require at least 2 options"),
                },
            )
        } else {
            Ok(())
        },
        _ => if is_new {
            Err(
                Error::InvalidTransaction {
                    reason: Reason::NewDecisionIsNoCategory(id),
                },
            )
        } else {
            Err(
                Error::InvalidTransaction {
                    reason: Reason::DecisionIsNoCategory(id),
                },
            )
        },
    }
}

fn check_dimension(
    decisions: &Dbs,
    types: &Table<DecisionId, DecisionType>,
    spec: &DimensionSpec,
) -> (r: Result<(), Error>)
    ensures
        dimension_problem(decisions@, types@, *spec) == match r {
            Ok(()) => None::<Error>,
            Err(e) => Some(e),
        },
{
    let id = spec.decision_id();
    let categorical = matches!(spec, DimensionSpec::Categorical(_));
    match types.get(&id) {
        Some(decision_type) => if categorical {
            check_category(decision_type, id, true)
        } else {
            Ok(())
        },
        None => match decisions.get_decision_entry(id) {
            None => Err(
                Error::InvalidTransaction { reason: Reason::NoReferencedDecision(id) },
            ),
            Some(entry) => match &entry.decision {
                None => Err(
                    Error::InvalidTransaction {
                        reason: Reason::ReferencedDecisionNeverClaimed(id),
                    },
                ),
                Some(decision) => if categorical {
                    check_category(&decision.decision_type, id, false)
                } else {
                    Ok(())
                },
            },
        },
    }
}

fn check_dimensions(
    decisions: &Dbs,
    types: &Table<DecisionId, DecisionType>,
    specs: &Box<[DimensionSpec]>,
) -> (r: Result<(), Error>)
    ensures
        dimensions_problem(decisions@, types@, specs@) == match r {
            Ok(()) => None::<Error>,
            Err(e) => Some(e),
        },
{
    let mut i: usize = 0;
    assert(specs@.subrange(0, 0) =~= Seq::empty());
    while i < specs.len()
        invariant
            i <= specs@.len(),
            dimensions_problem(decisions@, types@, specs@.subrange(0, i as int)) is None,
        decreases specs@.len() - i,
    {
        proof {
            assert(specs@.subrange(0, i + 1).drop_last() =~= specs@.subrange(0, i as int));
        }
        match check_dimension(decisions, types, &specs[i]) {
            Err(e) => {
                proof {
                    lemma_dimensions_prefix(decisions@, types@, specs@, i + 1);
                }
                return Err(e);
            },
            Ok(()) => {},
        }
        i += 1;
    }
    assert(specs@.subrange(0, i as int) =~= specs@);
    Ok(())
}

fn check_fraction(fee: Real) -> (r: bool)
    ensures
        r == is_fraction(fee),
{
    !fee.is_nan() && !fee.is_less(Real { bits: 0 }) && !(Real {
        bits: 0x3ff0_0000_0000_0000,
    }).is_less(fee)
}

impl MarketValidator {
    /// Checks a transaction that creates a market.
    pub fn validate_market_creation(
        decisions: &Dbs,
        tx: &FilledTransaction,
        current_period: u32,
        figures: &CreationFigures,
    ) -> (r: Result<(), Error>)
        requires
            current_period + FUTURE_PERIODS < u32::MAX,
        ensures
            creation_tx_problem(
                decisions@,
                *tx,
                current_period,
                figures.claims@,
                figures.market_id,
                figures.pow_is_valid,
            ) == match r {
                Ok(()) => None::<Error>,
                Err(e) => Some(e),
            },
    {
        let view = match tx.as_market_creation() {
            None => return Err(
                Error::InvalidTransaction {
                    reason: Reason::Text("Not a market creation transaction"),
                },
            ),
            Some(view) => view,
        };
        let maker = match MarketValidator::validate_maker_auth(tx) {
            Err(e) => return Err(e),
            Ok(maker) => maker,
        };
        let (types, fees) = match check_claims(
            decisions,
            view.new_claims,
            maker,
            current_period,
            &figures.claims,
        ) {
            Err(e) => return Err(e),
            Ok(pending) => pending,
        };
        if view.dimension_specs.len() == 0 {
            return Err(
                Error::InvalidTransaction {
                    reason: Reason::Text("Market must have at least one dimension"),
                },
            );
        }
        match check_dimensions(decisions, &types, view.dimension_specs) {
            Err(e) => return Err(e),
            Ok(()) => {},
        }
        match view.trading_fee {
            Some(fee) => if !check_fraction(fee) {
                return Err(
                    Error::InvalidTransaction { reason: Reason::TradingFeeOutOfRange(fee) },
                );
            },
            None => {},
        }
        match view.tx_pow_difficulty {
            Some(difficulty) => if difficulty > 0 && !figures.pow_is_valid {
                return Err(
                    Error::InvalidTransaction { reason: Reason::Text("TX-PoW config invalid") },
                );
            },
            None => {},
        }
        match find_treasury_output(tx.outputs(), &figures.market_id) {
            None => Err(
                Error::InvalidTransaction {
                    reason: Reason::NoTreasuryOutput(figures.market_id),
                },
            ),
            Some((_, sats)) => if sats == 0 {
                Err(
                    Error::InvalidTransaction {
                        reason: Reason::Text("CreateMarket treasury output must be positive"),
                    },
                )
            } else {
                check_listing_fee(tx, fees)
            },
        }
    }
}

/// What is known elsewhere of a trade: the height of the block that it names,
/// if there is one, whether that block is an ancestor of the tip, whether the
/// market asks for proof of work, and whether the trade has it.
#[derive(Clone, Copy, Debug)]
pub struct TradeFigures {
    pub prev_block_height: Option<u32>,
    pub is_ancestor: bool,
    pub pow_enabled: bool,
    pub pow_verified: bool,
}

/// The limits that trades keep to.
#[derive(Clone, Copy, Debug)]
pub struct TradeLimits {
    /// What the miner gets for a trade.
    pub miner_fee_sats: u64,
    /// How many blocks the block that a trade names may lie behind the tip.
    pub pow_bound_window_blocks: u32,
}

/// A transaction is made by its actor: the actor's coins pay for it, or there
/// is a proof.
pub open spec fn acts_for(tx: FilledTransaction, actor: Address) -> bool {
    ||| exists|i: int|
        0 <= i < tx.spent_utxos@.len() && (#[trigger] tx.spent_utxos@[i]).address == actor
    ||| tx.actor_address == Some(actor)
}

/// What is wrong with the block that a trade names.
pub open spec fn binding_problem(
    tip: Option<BlockHash>,
    height: Option<u32>,
    prev_block_hash: BlockHash,
    figures: TradeFigures,
    window: u32,
) -> Option<Error> {
    match tip {
        None => Some(
            Error::InvalidTransaction {
                reason: Reason::Text("No chain tip when validating trade"),
            },
        ),
        Some(tip) => match height {
            None => Some(
                Error::InvalidTransaction {
                    reason: Reason::Text("No chain height when validating trade"),
                },
            ),
            Some(height) => match figures.prev_block_height {
                None => Some(
                    Error::InvalidTransaction {
                        reason: Reason::UnknownTradeBlock(prev_block_hash),
                    },
                ),
                Some(prev_height) => if prev_block_hash != tip && !figures.is_ancestor {
                    Some(
                        Error::InvalidTransaction {
                            reason: Reason::InactiveTradeBlock(prev_block_hash),
                        },
                    )
                } else if height - prev_height > window {
                    Some(
                        Error::InvalidTransaction {
                            reason: Reason::TradeBlockTooOld {
                                depth: (height - prev_height) as u32,
                                window,
                            },
                        },
                    )
                } else {
                    None
                },
            },
        },
    }
}

/// Why a trade is not valid.
pub open spec fn trade_tx_problem(
    markets: MarketsView,
    tip: Option<BlockHash>,
    height: Option<u32>,
    tx: FilledTransaction,
    figures: TradeFigures,
    limits: TradeLimits,
) -> Option<Error> {
    match tx.trade_of() {
        None => Some(Error::InvalidTransaction { reason: Reason::Text("Not a trade transaction") }),
        Some(trade) => if !markets.markets.dom().contains(trade.market_id) {
            Some(Error::InvalidTransaction { reason: Reason::MarketDoesNotExist(trade.market_id) })
        } else {
            let market = markets.markets[trade.market_id];
            let input = total_value(tx.spent_utxos@);
            let owned = account_of(markets.accounts, trade.trader).shares(
                position(trade.market_id, trade.outcome_index),
            );
            if !(market.state is Trading) {
                Some(Error::InvalidTransaction { reason: Reason::MarketNotTrading(market.state) })
            } else {
                match binding_problem(
                    tip,
                    height,
                    trade.prev_block_hash,
                    figures,
                    limits.pow_bound_window_blocks,
                ) {
                    Some(e) => Some(e),
                    None => if figures.pow_enabled && trade.tx_pow_nonce is None {
                        Some(
                            Error::InvalidTransaction {
                                reason: Reason::Text("Trade requires TX-PoW nonce for this market"),
                            },
                        )
                    } else if figures.pow_enabled && !figures.pow_verified {
                        Some(
                            Error::InvalidTransaction {
                                reason: Reason::Text("TX-PoW verification failed"),
                            },
                        )
                    } else if trade.outcome_index >= market.shares.len() {
                        Some(
                            Error::InvalidTransaction {
                                reason: Reason::OutcomeIndexOutOfRange {
                                    index: trade.outcome_index,
                                    outcomes: market.shares.len() as usize,
                                },
                            },
                        )
                    } else if trade.shares == 0 {
                        Some(
                            Error::InvalidTransaction {
                                reason: Reason::Text("Shares to trade must be non-zero"),
                            },
                        )
                    } else if tx.transaction.outputs@.len() > 0 {
                        Some(
                            Error::InvalidTransaction {
                                reason: Reason::Text("Trade transactions must have no outputs"),
                            },
                        )
                    } else {
                        match maker_of(tx) {
                            Err(e) => Some(e),
                            Ok(_) => if input > u64::MAX {
                                Some(
                                    Error::InvalidTransaction {
                                        reason: Reason::Text("Failed to compute input value"),
                                    },
                                )
                            } else if trade.buys() {
                                if trade.limit_sats == 0 {
                                    Some(
                                        Error::InvalidTransaction {
                                            reason: Reason::Text("Buy limit (max_cost) must be positive"),
                                        },
                                    )
                                } else if input < trade.limit_sats {
                                    Some(
                                        Error::InvalidTransaction {
                                            reason: Reason::InputBelowLimit {
                                                input_sats: input as u64,
                                                limit_sats: trade.limit_sats,
                                            },
                                        },
                                    )
                                } else {
                                    None
                                }
                            } else if !acts_for(tx, trade.trader) {
                                Some(
                                    Error::InvalidTransaction {
                                        reason: Reason::NoProofOfTrader(trade.trader),
                                    },
                                )
                            } else if owned < magnitude(trade.shares) {
                                Some(
                                    Error::InvalidTransaction {
                                        reason: Reason::InsufficientShares {
                                            selling: magnitude(trade.shares),
                                            owned,
                                            outcome: trade.outcome_index,
                                        },
                                    },
                                )
                            } else if input < limits.miner_fee_sats {
                                Some(
                                    Error::InvalidTransaction {
                                        reason: Reason::InputBelowMinerFee {
                                            input_sats: input as u64,
                                            miner_fee_sats: limits.miner_fee_sats,
                                        },
                                    },
                                )
                            } else {
                                None
                            },
                        }
                    },
                }
            }
        },
    }
}

fn check_acts_for(tx: &FilledTransaction, actor: &Address) -> (r: bool)
    ensures
        r == acts_for(*tx, *actor),
{
    let mut i: usize = 0;
    while i < tx.spent_utxos.len()
        invariant
            i <= tx.spent_utxos@.len(),
            forall|j: int| 0 <= j < i ==> (#[trigger] tx.spent_utxos@[j]).address != *actor,
        decreases tx.spent_utxos@.len() - i,
    {
        if tx.spent_utxos[i].address == *actor {
            assert(tx.spent_utxos@[i as int].address == *actor);
            return true;
        }
        i += 1;
    }
    match &tx.actor_address {
        Some(address) => *address == *actor,
        None => false,
    }
}

fn check_binding(
    tip: &Option<BlockHash>,
    height: Option<u32>,
    prev_block_hash: &BlockHash,
    figures: &TradeFigures,
    window: u32,
) -> (r: Result<(), Error>)
    ensures
        binding_problem(*tip, height, *prev_block_hash, *figures, window) == match r {
            Ok(()) => None::<Error>,
            Err(e) => Some(e),
        },
{
    let tip = match tip {
        None => return Err(
            Error::InvalidTransaction {
                reason: Reason::Text("No chain tip when validating trade"),
            },
        ),
        Some(tip) => *tip,
    };
    let height: u32 = match height {
        None => return Err(
            Error::InvalidTransaction {
                reason: Reason::Text("No chain height when validating trade"),
            },
        ),
        Some(height) => height,
    };
    let prev_height: u32 = match figures.prev_block_height {
        None => return Err(
            Error::InvalidTransaction {
                reason: Reason::UnknownTradeBlock(*prev_block_hash),
            },
        ),
        Some(prev_height) => prev_height,
    };
    if *prev_block_hash != tip && !figures.is_ancestor {
        return Err(
            Error::InvalidTransaction {
                reason: Reason::InactiveTradeBlock(*prev_block_hash),
            },
        );
    }
    if height > prev_height && height - prev_height > window {
        return Err(
            Error::InvalidTransaction {
                reason: Reason::TradeBlockTooOld { depth: height - prev_height, window },
            },
        );
    }
    Ok(())
}

impl MarketValidator {
    /// Checks a trade.
    pub fn validate_trade(
        markets: &MarketsDatabase,
        tip: &Option<BlockHash>,
        height: Option<u32>,
        tx: &FilledTransaction,
        figures: &TradeFigures,
        limits: &TradeLimits,
    ) -> (r: Result<(), Error>)
        ensures
            trade_tx_problem(markets@, *tip, height, *tx, *figures, *limits) == match r {
                Ok(()) => None::<Error>,
                Err(e) => Some(e),
            },
    {
        let trade = match tx.trade() {
            None => return Err(
                Error::InvalidTransaction { reason: Reason::Text("Not a trade transaction") },
            ),
            Some(trade) => trade,
        };
        let outcomes: usize = match markets.get_market(&trade.market_id) {
            None => return Err(
                Error::InvalidTransaction { reason: Reason::MarketDoesNotExist(trade.market_id) },
            ),
            Some(market) => {
                if !market.state.allows_trading() {
                    return Err(
                        Error::InvalidTransaction {
                            reason: Reason::MarketNotTrading(market.state),
                        },
                    );
                }
                market.shares.len()
            },
        };
        match check_binding(
            tip,
            height,
            &trade.prev_block_hash,
            figures,
            limits.pow_bound_window_blocks,
        ) {
            Err(e) => return Err(e),
            Ok(()) => {},
        }
        if figures.pow_enabled {
            if trade.tx_pow_nonce.is_none() {
                return Err(
                    Error::InvalidTransaction {
                        reason: Reason::Text("Trade requires TX-PoW nonce for this market"),
                    },
                );
            }
            if !figures.pow_verified {
                return Err(
                    Error::InvalidTransaction {
                        reason: Reason::Text("TX-PoW verification failed"),
                    },
                );
            }
        }
        if trade.outcome_index as usize >= outcomes {
            return Err(
                Error::InvalidTransaction {
                    reason: Reason::OutcomeIndexOutOfRange { index: trade.outcome_index, outcomes },
                },
            );
        }
        if trade.shares == 0 {
            return Err(
                Error::InvalidTransaction {
                    reason: Reason::Text("Shares to trade must be non-zero"),
                },
            );
        }
        if tx.outputs().len() > 0 {
            return Err(
                Error::InvalidTransaction {
                    reason: Reason::Text("Trade transactions must have no outputs"),
                },
            );
        }
        match MarketValidator::validate_maker_auth(tx) {
            Err(e) => return Err(e),
            Ok(_) => {},
        }
        let input_value: u64 = match tx.spent_bitcoin_value() {
            Err(_) => return Err(
                Error::InvalidTransaction { reason: Reason::Text("Failed to compute input value") },
            ),
            Ok(sats) => sats,
        };
        if trade.is_buy() {
            if trade.limit_sats == 0 {
                return Err(
                    Error::InvalidTransaction {
                        reason: Reason::Text("Buy limit (max_cost) must be positive"),
                    },
                );
            }
            if input_value < trade.limit_sats {
                return Err(
                    Error::InvalidTransaction {
                        reason: Reason::InputBelowLimit {
                            input_sats: input_value,
                            limit_sats: trade.limit_sats,
                        },
                    },
                );
            }
        } else {
            if !check_acts_for(tx, &trade.trader) {
                return Err(
                    Error::InvalidTransaction {
                        reason: Reason::NoProofOfTrader(trade.trader),
                    },
                );
            }
            let owned: i64 = markets.get_shares(
                &trade.trader,
                &trade.market_id,
                trade.outcome_index,
            );
            if owned < 0 || (owned as u64) < trade.shares_abs() {
                return Err(
                    Error::InvalidTransaction {
                        reason: Reason::InsufficientShares {
                            selling: trade.shares_abs(),
                            owned,
                            outcome: trade.outcome_index,
                        },
                    },
                );
            }
            if input_value < limits.miner_fee_sats {
                return Err(
                    Error::InvalidTransaction {
                        reason: Reason::InputBelowMinerFee {
                            input_sats: input_value,
                            miner_fee_sats: limits.miner_fee_sats,
                        },
                    },
                );
            }
        }
        Ok(())
    }
}

/// Why a transaction that deepens a market is not valid.
pub open spec fn amplify_tx_problem(markets: MarketsView, tx: FilledTransaction, miner_fee: u64)
    -> Option<Error> {
    match tx.transaction.data {
        Some(TransactionData::AmplifyBeta { market_id, amount, market_author }) => {
            let input = total_value(tx.spent_utxos@);
            if amount == 0 {
                Some(
                    Error::InvalidTransaction {
                        reason: Reason::Text("AmplifyBeta amount must be positive"),
                    },
                )
            } else if !markets.markets.dom().contains(market_id) {
                Some(Error::InvalidTransaction { reason: Reason::MarketDoesNotExist(market_id) })
            } else if !(markets.markets[market_id].state is Trading) {
                Some(
                    Error::InvalidTransaction {
                        reason: Reason::MarketNotTrading(markets.markets[market_id].state),
                    },
                )
            } else if markets.markets[market_id].terms.creator_address != market_author {
                Some(
                    Error::InvalidTransaction {
                        reason: Reason::NotTheAuthor {
                            author: market_author,
                            creator: markets.markets[market_id].terms.creator_address,
                        },
                    },
                )
            } else if !acts_for(tx, market_author) {
                Some(
                    Error::InvalidTransaction {
                        reason: Reason::NoProofOfAuthor(market_author),
                    },
                )
            } else if tx.transaction.outputs@.len() > 0 {
                Some(
                    Error::InvalidTransaction {
                        reason: Reason::Text("AmplifyBeta transactions must have no outputs"),
                    },
                )
            } else if input > u64::MAX {
                Some(
                    Error::InvalidTransaction {
                        reason: Reason::Text("Failed to compute input value"),
                    },
                )
            } else if amount + miner_fee > u64::MAX {
                Some(
                    Error::InvalidTransaction {
                        reason: Reason::Text("AmplifyBeta amount overflow"),
                    },
                )
            } else if input < amount + miner_fee {
                Some(
                    Error::InvalidTransaction {
                        reason: Reason::InputBelowAmount {
                            input_sats: input as u64,
                            amount_sats: amount,
                            miner_fee_sats: miner_fee,
                        },
                    },
                )
            } else {
                None
            }
        },
        _ => Some(
            Error::InvalidTransaction { reason: Reason::Text("Not an amplify_beta transaction") },
        ),
    }
}

impl MarketValidator {
    /// Checks a transaction that deepens a market.
    pub fn validate_amplify_beta(
        markets: &MarketsDatabase,
        tx: &FilledTransaction,
        miner_fee: u64,
    ) -> (r: Result<(), Error>)
        ensures
            amplify_tx_problem(markets@, *tx, miner_fee) == match r {
                Ok(()) => None::<Error>,
                Err(e) => Some(e),
            },
    {
        let amplify = match tx.amplify_beta() {
            None => return Err(
                Error::InvalidTransaction {
                    reason: Reason::Text("Not an amplify_beta transaction"),
                },
            ),
            Some(amplify) => amplify,
        };
        if amplify.amount == 0 {
            return Err(
                Error::InvalidTransaction {
                    reason: Reason::Text("AmplifyBeta amount must be positive"),
                },
            );
        }
        match markets.get_market(&amplify.market_id) {
            None => return Err(
                Error::InvalidTransaction { reason: Reason::MarketDoesNotExist(amplify.market_id) },
            ),
            Some(market) => {
                if !market.state.allows_trading() {
                    return Err(
                        Error::InvalidTransaction {
                            reason: Reason::MarketNotTrading(market.state),
                        },
                    );
                }
                if market.terms.creator_address != amplify.market_author {
                    return Err(
                        Error::InvalidTransaction {
                            reason: Reason::NotTheAuthor {
                                author: amplify.market_author,
                                creator: market.terms.creator_address,
                            },
                        },
                    );
                }
            },
        }
        if !check_acts_for(tx, &amplify.market_author) {
            return Err(
                Error::InvalidTransaction {
                    reason: Reason::NoProofOfAuthor(amplify.market_author),
                },
            );
        }
        if tx.outputs().len() > 0 {
            return Err(
                Error::InvalidTransaction {
                    reason: Reason::Text("AmplifyBeta transactions must have no outputs"),
                },
            );
        }
        let input_value: u64 = match tx.spent_bitcoin_value() {
            Err(_) => return Err(
                Error::InvalidTransaction { reason: Reason::Text("Failed to compute input value") },
            ),
            Ok(sats) => sats,
        };
        let required: u64 = match amplify.amount.checked_add(miner_fee) {
            None => return Err(
                Error::InvalidTransaction { reason: Reason::Text("AmplifyBeta amount overflow") },
            ),
            Some(required) => required,
        };
        if input_value < required {
            return Err(
                Error::InvalidTransaction {
                    reason: Reason::InputBelowAmount {
                        input_sats: input_value,
                        amount_sats: amplify.amount,
                        miner_fee_sats: miner_fee,
                    },
                },
            );
        }
        Ok(())
    }
}

} // verus!
