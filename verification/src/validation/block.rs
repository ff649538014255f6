//! What a block must meet.

use vstd::prelude::*;

use crate::authorization::{
    actor_proof_holds, address_of, all_proofs_hold, body_verifies, count_inputs, input_count, proof_at,
    transaction_verifies, verify_body, verify_transaction, Authorization,
    BatchVerificationContext,
};
use crate::state::block::connect::PrevalidatedBlock;
use crate::state::decisions::types::{DecisionId, FUTURE_PERIODS};
use crate::state::error::InvalidHeader;
use crate::state::ledger::{outputs_named, Ledger};
use crate::state::{Error, Reason, State};
use crate::table::Table;
use crate::types::block::{Body, Header};
use crate::types::encoding::Encode;
use crate::types::transaction::output::{Content, FilledOutput, TxOutput};
use crate::types::transaction::{
    checked_total, total_value, AuthorizedTransaction, ClaimDecisionPayload, DecisionClaimEntry,
    FilledTransaction, OutPoint, Transaction, TransactionData,
};
use crate::types::{AmountOverflowError, BlockHash, MerkleRoot};
use crate::validation::decision::{claim_tx_problem, ClaimFigures, DecisionValidator};
use crate::validation::market::{
    amplify_tx_problem, creation_tx_problem, trade_tx_problem, CreationFigures, MarketValidator,
    TradeFigures, TradeLimits,
};

verus! {

pub struct BlockValidator;

/// A coinbase makes no funds of a market.
pub open spec fn coinbase_is_plain(coinbase: Seq<TxOutput>) -> bool {
    forall|i: int| 0 <= i < coinbase.len() ==> !((#[trigger] coinbase[i]).content is MarketFunds)
}

/// The fee of a transaction: that of a trade is fixed, and that of another is
/// what it leaves over.
pub open spec fn fee_of(tx: FilledTransaction, miner_fee: u64) -> Result<u64, Error> {
    let fixed = tx.transaction.data matches Some(data) && (data is Trade || data is AmplifyBeta);
    if fixed {
        Ok(miner_fee)
    } else {
        match tx.fee() {
            Err(_) => Err(Error::AmountOverflow(AmountOverflowError)),
            Ok(None) => Err(Error::NotEnoughValueIn),
            Ok(Some(fee)) => Ok(fee),
        }
    }
}

/// The fees of the transactions that are not skipped.
pub open spec fn total_fees(txs: Seq<FilledTransaction>, skipped: Seq<u32>, miner_fee: u64)
    -> Result<u64, Error>
    decreases txs.len(),
{
    if txs.len() == 0 {
        Ok(0)
    } else {
        match total_fees(txs.drop_last(), skipped, miner_fee) {
            Err(e) => Err(e),
            Ok(before) => if skipped.contains((txs.len() - 1) as u32) {
                Ok(before)
            } else {
                match fee_of(txs.last(), miner_fee) {
                    Err(e) => Err(e),
                    Ok(fee) => if before + fee > u64::MAX {
                        Err(Error::AmountOverflow(AmountOverflowError))
                    } else {
                        Ok((before + fee) as u64)
                    },
                }
            },
        }
    }
}

/// What is wrong with the fees of a block: a coinbase takes no more than there
/// are.
pub open spec fn fees_problem(
    coinbase_value: u64,
    txs: Seq<FilledTransaction>,
    skipped: Seq<u32>,
    miner_fee: u64,
) -> Option<Error> {
    match total_fees(txs, skipped, miner_fee) {
        Err(e) => Some(e),
        Ok(total) => if coinbase_value > total {
            Some(Error::NotEnoughFees)
        } else {
            None
        },
    }
}

proof fn lemma_fees_prefix(
    txs: Seq<FilledTransaction>,
    skipped: Seq<u32>,
    miner_fee: u64,
    n: int,
)
    requires
        0 <= n <= txs.len(),
        total_fees(txs.subrange(0, n), skipped, miner_fee) is Err,
    ensures
        total_fees(txs, skipped, miner_fee) == total_fees(txs.subrange(0, n), skipped, miner_fee),
    decreases txs.len() - n,
{
    if n == txs.len() {
        assert(txs.subrange(0, n) =~= txs);
    } else {
        assert(txs.subrange(0, n + 1).drop_last() =~= txs.subrange(0, n));
        lemma_fees_prefix(txs, skipped, miner_fee, n + 1);
    }
}

/// Whether a transaction is skipped.
pub fn is_skipped(skipped: &Vec<u32>, index: u32) -> (r: bool)
    ensures
        r == skipped@.contains(index),
{
    let mut i: usize = 0;
    while i < skipped.len()
        invariant
            i <= skipped@.len(),
            forall|j: int| 0 <= j < i ==> skipped@[j] != index,
        decreases skipped@.len() - i,
    {
        if skipped[i] == index {
            assert(skipped@[i as int] == index);
            return true;
        }
        i += 1;
    }
    false
}

fn transaction_fee(tx: &FilledTransaction, miner_fee: u64) -> (r: Result<u64, Error>)
    ensures
        r == fee_of(*tx, miner_fee),
{
    if tx.is_trade() || tx.is_amplify_beta() {
        return Ok(miner_fee);
    }
    match tx.bitcoin_fee() {
        Err(_) => Err(Error::AmountOverflow(AmountOverflowError)),
        Ok(None) => Err(Error::NotEnoughValueIn),
        Ok(Some(fee)) => Ok(fee),
    }
}

impl BlockValidator {
    pub fn validate_coinbase_outputs(coinbase: &Vec<TxOutput>, _height: u32) -> (r: Result<
        (),
        Error,
    >)
        ensures
            r == if coinbase_is_plain(coinbase@) {
                Ok::<(), Error>(())
            } else {
                Err::<(), Error>(Error::BadCoinbaseOutputContent)
            },
    {
        let mut i: usize = 0;
        while i < coinbase.len()
            invariant
                i <= coinbase@.len(),
                forall|j: int| 0 <= j < i ==> !((#[trigger] coinbase@[j]).content is MarketFunds),
            decreases coinbase@.len() - i,
        {
            match &coinbase[i].content {
                Content::Bitcoin(_) | Content::Withdrawal(_) => {},
                Content::MarketFunds { .. } => {
                    assert(coinbase@[i as int].content is MarketFunds);
                    return Err(Error::BadCoinbaseOutputContent);
                },
            }
            i += 1;
        }
        Ok(())
    }

    /// Checks that a coinbase takes no more than the fees of the transactions
    /// that are not skipped. `miner_fee` is the fee of a trade.
    pub fn validate_fees(
        coinbase_value: u64,
        filled_txs: &Vec<FilledTransaction>,
        skipped_indices: &Vec<u32>,
        miner_fee: u64,
    ) -> (r: Result<(), Error>)
        requires
            filled_txs@.len() <= u32::MAX,
        ensures
            fees_problem(coinbase_value, filled_txs@, skipped_indices@, miner_fee) == match r {
                Ok(()) => None::<Error>,
                Err(e) => Some(e),
            },
    {
        let ghost txs = filled_txs@;
        let ghost skipped = skipped_indices@;
        let mut total: u64 = 0;
        let mut i: usize = 0;
        assert(txs.subrange(0, 0) =~= Seq::empty());
        while i < filled_txs.len()
            invariant
                i <= filled_txs@.len() <= u32::MAX,
                txs == filled_txs@,
                skipped == skipped_indices@,
                total_fees(txs.subrange(0, i as int), skipped, miner_fee) == Ok::<u64, Error>(
                    total,
                ),
            decreases filled_txs@.len() - i,
        {
            proof {
                assert(txs.subrange(0, i + 1).drop_last() =~= txs.subrange(0, i as int));
            }
            if !is_skipped(skipped_indices, i as u32) {
                match transaction_fee(&filled_txs[i], miner_fee) {
                    Err(e) => {
                        proof {
                            lemma_fees_prefix(txs, skipped, miner_fee, i + 1);
                        }
                        return Err(e);
                    },
                    Ok(fee) => match total.checked_add(fee) {
                        None => {
                            proof {
                                lemma_fees_prefix(txs, skipped, miner_fee, i + 1);
                            }
                            return Err(Error::AmountOverflow(AmountOverflowError));
                        },
                        Some(sum) => {
                            total = sum;
                        },
                    },
                }
            }
            i += 1;
        }
        assert(txs.subrange(0, i as int) =~= txs);
        if coinbase_value > total {
            return Err(Error::NotEnoughFees);
        }
        Ok(())
    }
}

/// What is worked out elsewhere to check a transaction.
#[derive(Debug)]
pub enum CheckFigures {
    /// For a transaction that needs nothing.
    Nothing,
    Claim(ClaimFigures),
    Creation(CreationFigures),
    Trade(TradeFigures),
    /// What is wrong with a vote, a ballot or a transfer of reputation.
    Vote(Option<Reason>),
}

/// The figures are those that a transaction needs.
pub open spec fn check_figures_fit(data: Option<TransactionData>, figures: CheckFigures) -> bool {
    match data {
        Some(TransactionData::ClaimDecision(_)) => figures is Claim,
        Some(TransactionData::CreateMarket { .. }) => figures is Creation,
        Some(TransactionData::Trade { .. }) => figures is Trade,
        Some(TransactionData::SubmitVote { .. }) => figures is Vote,
        Some(TransactionData::SubmitBallot { .. }) => figures is Vote,
        Some(TransactionData::TransferReputation { .. }) => figures is Vote,
        _ => true,
    }
}

/// The first of the first `n` coins that is committed to a withdrawal bundle.
/// Such a coin is spent by the bundle alone.
pub open spec fn withdrawal_among(tx: FilledTransaction, n: int) -> Option<OutPoint>
    decreases n,
{
    if n <= 0 {
        None
    } else {
        match withdrawal_among(tx, n - 1) {
            Some(outpoint) => Some(outpoint),
            None => if tx.spent_utxos@[n - 1].content is BitcoinWithdrawal {
                Some(tx.transaction.inputs@[n - 1])
            } else {
                None
            },
        }
    }
}

/// The fee of a transaction, or why it is not valid.
pub open spec fn checked_fee(
    state: State,
    tx: FilledTransaction,
    current_period: u32,
    figures: CheckFigures,
    limits: TradeLimits,
) -> Result<u64, Error> {
    match withdrawal_among(tx, tx.spent_len()) {
        Some(outpoint) => Err(Error::SpendWithdrawalOutput { outpoint }),
        None => {
            let problem = match tx.transaction.data {
                Some(TransactionData::ClaimDecision(_)) => claim_tx_problem(
                    state.decisions@,
                    tx,
                    current_period,
                    figures->Claim_0,
                ),
                Some(TransactionData::CreateMarket { .. }) => creation_tx_problem(
                    state.decisions@,
                    tx,
                    current_period,
                    figures->Creation_0.claims@,
                    figures->Creation_0.market_id,
                    figures->Creation_0.pow_is_valid,
                ),
                Some(TransactionData::Trade { .. }) => trade_tx_problem(
                    state.markets@,
                    state.tip,
                    state.height,
                    tx,
                    figures->Trade_0,
                    limits,
                ),
                Some(TransactionData::AmplifyBeta { .. }) => amplify_tx_problem(
                    state.markets@,
                    tx,
                    limits.miner_fee_sats,
                ),
                Some(_) => match figures->Vote_0 {
                    Some(reason) => Some(Error::InvalidTransaction { reason }),
                    None => None,
                },
                None => None,
            };
            match problem {
                Some(e) => Err(e),
                None => fee_of(tx, limits.miner_fee_sats),
            }
        },
    }
}

fn check_withdrawals(tx: &FilledTransaction) -> (r: Result<(), Error>)
    ensures
        match withdrawal_among(*tx, tx.spent_len()) {
            Some(outpoint) => r == Err::<(), Error>(Error::SpendWithdrawalOutput { outpoint }),
            None => r is Ok,
        },
{
    let mut i: usize = 0;
    while i < tx.transaction.inputs.len() && i < tx.spent_utxos.len()
        invariant
            i <= tx.spent_len(),
            withdrawal_among(*tx, i as int) is None,
        decreases tx.spent_len() - i,
    {
        if tx.spent_utxos[i].is_withdrawal() {
            proof {
                lemma_withdrawal_stays(*tx, i + 1, tx.spent_len());
            }
            return Err(
                Error::SpendWithdrawalOutput { outpoint: tx.transaction.inputs[i] },
            );
        }
        i += 1;
    }
    Ok(())
}

proof fn lemma_withdrawal_stays(tx: FilledTransaction, n: int, m: int)
    requires
        0 <= n <= m,
        withdrawal_among(tx, n) is Some,
    ensures
        withdrawal_among(tx, m) == withdrawal_among(tx, n),
    decreases m - n,
{
    if n < m {
        lemma_withdrawal_stays(tx, n, m - 1);
    }
}

impl BlockValidator {
    /// Checks a transaction, and says what fee it pays. `current_period` is the
    /// period of the block.
    pub fn validate_filled_transaction(
        state: &State,
        tx: &FilledTransaction,
        current_period: u32,
        figures: &CheckFigures,
        limits: &TradeLimits,
    ) -> (r: Result<u64, Error>)
        requires
            current_period + FUTURE_PERIODS < u32::MAX,
            check_figures_fit(tx.transaction.data, *figures),
        ensures
            r == checked_fee(*state, *tx, current_period, *figures, *limits),
    {
        match check_withdrawals(tx) {
            Err(e) => return Err(e),
            Ok(()) => {},
        }
        let checked = match (&tx.transaction.data, figures) {
            (Some(TransactionData::ClaimDecision(_)), CheckFigures::Claim(figures)) => {
                DecisionValidator::validate_complete_decision_claim(
                    &state.decisions,
                    tx,
                    current_period,
                    figures,
                )
            },
            (Some(TransactionData::CreateMarket { .. }), CheckFigures::Creation(figures)) => {
                MarketValidator::validate_market_creation(
                    &state.decisions,
                    tx,
                    current_period,
                    figures,
                )
            },
            (Some(TransactionData::Trade { .. }), CheckFigures::Trade(figures)) => {
                MarketValidator::validate_trade(
                    &state.markets,
                    &state.tip,
                    state.height,
                    tx,
                    figures,
                    limits,
                )
            },
            (Some(TransactionData::AmplifyBeta { .. }), _) => {
                MarketValidator::validate_amplify_beta(&state.markets, tx, limits.miner_fee_sats)
            },
            (Some(_), CheckFigures::Vote(Some(reason))) => Err(
                Error::InvalidTransaction { reason: *reason },
            ),
            _ => Ok(()),
        };
        match checked {
            Err(e) => Err(e),
            Ok(()) => transaction_fee(tx, limits.miner_fee_sats),
        }
    }
}

/// The claims of a transaction.
pub open spec fn payloads_of(tx: Transaction) -> Seq<ClaimDecisionPayload> {
    match tx.data {
        Some(TransactionData::ClaimDecision(payload)) => seq![payload],
        Some(
            TransactionData::CreateMarket {
                title,
                description,
                dimension_specs,
                new_claims,
                trading_fee,
                tx_pow_hash_selector,
                tx_pow_ordering,
                tx_pow_difficulty,
            },
        ) => new_claims@,
        _ => Seq::empty(),
    }
}

/// The decisions that are claimed, each with what was claimed before it: the
/// first one that was claimed already, or all that are claimed.
pub open spec fn entries_noted(
    claimed: Result<Map<DecisionId, ()>, [u8; 3]>,
    entries: Seq<DecisionClaimEntry>,
) -> Result<Map<DecisionId, ()>, [u8; 3]>
    decreases entries.len(),
{
    if entries.len() == 0 {
        claimed
    } else {
        match entries_noted(claimed, entries.drop_last()) {
            Err(id) => Err(id),
            Ok(before) => {
                let id = DecisionId(entries.last().decision_id_bytes);
                if before.dom().contains(id) {
                    Err(entries.last().decision_id_bytes)
                } else {
                    Ok(before.insert(id, ()))
                }
            },
        }
    }
}

pub open spec fn payloads_noted(
    claimed: Result<Map<DecisionId, ()>, [u8; 3]>,
    payloads: Seq<ClaimDecisionPayload>,
) -> Result<Map<DecisionId, ()>, [u8; 3]>
    decreases payloads.len(),
{
    if payloads.len() == 0 {
        claimed
    } else {
        entries_noted(
            payloads_noted(claimed, payloads.drop_last()),
            payloads.last().decisions@,
        )
    }
}

pub open spec fn claims_noted(txs: Seq<Transaction>) -> Result<Map<DecisionId, ()>, [u8; 3]>
    decreases txs.len(),
{
    if txs.len() == 0 {
        Ok(Map::empty())
    } else {
        payloads_noted(claims_noted(txs.drop_last()), payloads_of(txs.last()))
    }
}

proof fn lemma_entries_stuck(id: [u8; 3], entries: Seq<DecisionClaimEntry>)
    ensures
        entries_noted(Err(id), entries) == Err::<Map<DecisionId, ()>, [u8; 3]>(id),
    decreases entries.len(),
{
    if entries.len() > 0 {
        lemma_entries_stuck(id, entries.drop_last());
    }
}

proof fn lemma_payloads_stuck(id: [u8; 3], payloads: Seq<ClaimDecisionPayload>)
    ensures
        payloads_noted(Err(id), payloads) == Err::<Map<DecisionId, ()>, [u8; 3]>(id),
    decreases payloads.len(),
{
    if payloads.len() > 0 {
        lemma_payloads_stuck(id, payloads.drop_last());
        lemma_entries_stuck(id, payloads.last().decisions@);
    }
}

proof fn lemma_entries_noted_prefix(
    claimed: Result<Map<DecisionId, ()>, [u8; 3]>,
    entries: Seq<DecisionClaimEntry>,
    n: int,
)
    requires
        0 <= n <= entries.len(),
        entries_noted(claimed, entries.subrange(0, n)) is Err,
    ensures
        entries_noted(claimed, entries) == entries_noted(claimed, entries.subrange(0, n)),
    decreases entries.len() - n,
{
    if n == entries.len() {
        assert(entries.subrange(0, n) =~= entries);
    } else {
        assert(entries.subrange(0, n + 1).drop_last() =~= entries.subrange(0, n));
        lemma_entries_noted_prefix(claimed, entries, n + 1);
    }
}

proof fn lemma_payloads_noted_prefix(
    claimed: Result<Map<DecisionId, ()>, [u8; 3]>,
    payloads: Seq<ClaimDecisionPayload>,
    n: int,
)
    requires
        0 <= n <= payloads.len(),
        payloads_noted(claimed, payloads.subrange(0, n)) is Err,
    ensures
        payloads_noted(claimed, payloads) == payloads_noted(claimed, payloads.subrange(0, n)),
    decreases payloads.len() - n,
{
    if n == payloads.len() {
        assert(payloads.subrange(0, n) =~= payloads);
    } else {
        let id = payloads_noted(claimed, payloads.subrange(0, n))->Err_0;
        assert(payloads.subrange(0, n + 1).drop_last() =~= payloads.subrange(0, n));
        lemma_entries_stuck(id, payloads[n].decisions@);
        lemma_payloads_noted_prefix(claimed, payloads, n + 1);
    }
}

proof fn lemma_claims_noted_prefix(txs: Seq<Transaction>, n: int)
    requires
        0 <= n <= txs.len(),
        claims_noted(txs.subrange(0, n)) is Err,
    ensures
        claims_noted(txs) == claims_noted(txs.subrange(0, n)),
    decreases txs.len() - n,
{
    if n == txs.len() {
        assert(txs.subrange(0, n) =~= txs);
    } else {
        let id = claims_noted(txs.subrange(0, n))->Err_0;
        assert(txs.subrange(0, n + 1).drop_last() =~= txs.subrange(0, n));
        lemma_payloads_stuck(id, payloads_of(txs[n]));
        lemma_claims_noted_prefix(txs, n + 1);
    }
}

fn note_entries(
    claimed: &mut Table<DecisionId, ()>,
    entries: &Box<[DecisionClaimEntry]>,
) -> (r: Result<(), [u8; 3]>)
    ensures
        match r {
            Ok(()) => entries_noted(Ok(old(claimed)@), entries@) == Ok::<
                Map<DecisionId, ()>,
                [u8; 3],
            >(final(claimed)@),
            Err(id) => entries_noted(Ok(old(claimed)@), entries@) == Err::<
                Map<DecisionId, ()>,
                [u8; 3],
            >(id),
        },
{
    let ghost start: Result<Map<DecisionId, ()>, [u8; 3]> = Ok(claimed@);
    let mut i: usize = 0;
    assert(entries@.subrange(0, 0) =~= Seq::empty());
    while i < entries.len()
        invariant
            i <= entries@.len(),
            start == Ok::<Map<DecisionId, ()>, [u8; 3]>(old(claimed)@),
            entries_noted(start, entries@.subrange(0, i as int)) == Ok::<
                Map<DecisionId, ()>,
                [u8; 3],
            >(claimed@),
        decreases entries@.len() - i,
    {
        proof {
            assert(entries@.subrange(0, i + 1).drop_last() =~= entries@.subrange(0, i as int));
        }
        let id = DecisionId(entries[i].decision_id_bytes);
        if claimed.contains(&id) {
            proof {
                lemma_entries_noted_prefix(start, entries@, i + 1);
            }
            return Err(entries[i].decision_id_bytes);
        }
        claimed.put(id, ());
        i += 1;
    }
    assert(entries@.subrange(0, i as int) =~= entries@);
    Ok(())
}

fn note_payloads(
    claimed: &mut Table<DecisionId, ()>,
    payloads: &Box<[ClaimDecisionPayload]>,
) -> (r: Result<(), [u8; 3]>)
    ensures
        match r {
            Ok(()) => payloads_noted(Ok(old(claimed)@), payloads@) == Ok::<
                Map<DecisionId, ()>,
                [u8; 3],
            >(final(claimed)@),
            Err(id) => payloads_noted(Ok(old(claimed)@), payloads@) == Err::<
                Map<DecisionId, ()>,
                [u8; 3],
            >(id),
        },
{
    let ghost start: Result<Map<DecisionId, ()>, [u8; 3]> = Ok(claimed@);
    let mut i: usize = 0;
    assert(payloads@.subrange(0, 0) =~= Seq::empty());
    while i < payloads.len()
        invariant
            i <= payloads@.len(),
            start == Ok::<Map<DecisionId, ()>, [u8; 3]>(old(claimed)@),
            payloads_noted(start, payloads@.subrange(0, i as int)) == Ok::<
                Map<DecisionId, ()>,
                [u8; 3],
            >(claimed@),
        decreases payloads@.len() - i,
    {
        proof {
            assert(payloads@.subrange(0, i + 1).drop_last() =~= payloads@.subrange(0, i as int));
        }
        match note_entries(claimed, &payloads[i].decisions) {
            Err(id) => {
                proof {
                    lemma_payloads_noted_prefix(start, payloads@, i + 1);
                }
                return Err(id);
            },
            Ok(()) => {},
        }
        i += 1;
    }
    assert(payloads@.subrange(0, i as int) =~= payloads@);
    Ok(())
}

fn note_claims(claimed: &mut Table<DecisionId, ()>, tx: &Transaction) -> (r: Result<(), [u8; 3]>)
    ensures
        match r {
            Ok(()) => payloads_noted(Ok(old(claimed)@), payloads_of(*tx)) == Ok::<
                Map<DecisionId, ()>,
                [u8; 3],
            >(final(claimed)@),
            Err(id) => payloads_noted(Ok(old(claimed)@), payloads_of(*tx)) == Err::<
                Map<DecisionId, ()>,
                [u8; 3],
            >(id),
        },
{
    match &tx.data {
        Some(TransactionData::ClaimDecision(payload)) => {
            proof {
                let one = payloads_of(*tx);
                assert(one.drop_last() =~= Seq::empty());
                assert(payloads_noted(Ok(claimed@), one.drop_last()) == Ok::<
                    Map<DecisionId, ()>,
                    [u8; 3],
                >(claimed@));
            }
            note_entries(claimed, &payload.decisions)
        },
        Some(TransactionData::CreateMarket { new_claims, .. }) => note_payloads(
            claimed,
            new_claims,
        ),
        _ => Ok(()),
    }
}

impl BlockValidator {
    /// Refuses a block that claims a decision more than once.
    pub fn check_duplicate_decision_claims(transactions: &Vec<Transaction>) -> (r: Result<
        (),
        Error,
    >)
        ensures
            match claims_noted(transactions@) {
                Ok(_) => r is Ok,
                Err(id) => r == Err::<(), Error>(Error::DuplicateDecisionClaim(id)),
            },
    {
        let mut claimed: Table<DecisionId, ()> = Table::new();
        let mut i: usize = 0;
        assert(transactions@.subrange(0, 0) =~= Seq::empty());
        while i < transactions.len()
            invariant
                i <= transactions@.len(),
                claims_noted(transactions@.subrange(0, i as int)) == Ok::<
                    Map<DecisionId, ()>,
                    [u8; 3],
                >(claimed@),
            decreases transactions@.len() - i,
        {
            proof {
                assert(transactions@.subrange(0, i + 1).drop_last() =~= transactions@.subrange(
                    0,
                    i as int,
                ));
            }
            match note_claims(&mut claimed, &transactions[i]) {
                Err(id) => {
                    proof {
                        lemma_claims_noted_prefix(transactions@, i + 1);
                    }
                    return Err(Error::DuplicateDecisionClaim(id));
                },
                Ok(()) => {},
            }
            i += 1;
        }
        assert(transactions@.subrange(0, i as int) =~= transactions@);
        Ok(())
    }
}

/// A transaction with the coins that it spends, and with who acts by it.
pub open spec fn is_filled_tx(
    filled: FilledTransaction,
    tx: Transaction,
    utxos: Map<OutPoint, FilledOutput>,
    shown: Option<Authorization>,
) -> bool {
    &&& filled.transaction == tx
    &&& outputs_named(utxos, tx.inputs@) == Ok::<Seq<FilledOutput>, OutPoint>(
        filled.spent_utxos@,
    )
    &&& filled.actor_address == match shown {
        Some(authorization) => Some(address_of(authorization.verifying_key)),
        None => None,
    }
}

/// The transactions of a block, filled.
pub open spec fn are_filled(
    filled: Seq<FilledTransaction>,
    txs: Seq<Transaction>,
    utxos: Map<OutPoint, FilledOutput>,
    proofs: Seq<Option<Authorization>>,
) -> bool {
    &&& filled.len() == txs.len()
    &&& forall|i: int|
        0 <= i < txs.len() ==> is_filled_tx(
            #[trigger] filled[i],
            txs[i],
            utxos,
            proof_at(proofs, i),
        )
}

/// The first input of the transactions that is not there.
pub open spec fn missing_input(utxos: Map<OutPoint, FilledOutput>, txs: Seq<Transaction>) -> Option<
    OutPoint,
>
    decreases txs.len(),
{
    if txs.len() == 0 {
        None
    } else {
        match missing_input(utxos, txs.drop_last()) {
            Some(outpoint) => Some(outpoint),
            None => match outputs_named(utxos, txs.last().inputs@) {
                Err(outpoint) => Some(outpoint),
                Ok(_) => None,
            },
        }
    }
}

proof fn lemma_missing_prefix(utxos: Map<OutPoint, FilledOutput>, txs: Seq<Transaction>, n: int)
    requires
        0 <= n <= txs.len(),
        missing_input(utxos, txs.subrange(0, n)) is Some,
    ensures
        missing_input(utxos, txs) == missing_input(utxos, txs.subrange(0, n)),
    decreases txs.len() - n,
{
    if n == txs.len() {
        assert(txs.subrange(0, n) =~= txs);
    } else {
        assert(txs.subrange(0, n + 1).drop_last() =~= txs.subrange(0, n));
        lemma_missing_prefix(utxos, txs, n + 1);
    }
}

fn fill_with_actor(ledger: &Ledger, tx: &Transaction, shown: &Option<Authorization>) -> (r: Result<
    FilledTransaction,
    Error,
>)
    ensures
        match r {
            Ok(filled) => is_filled_tx(filled, *tx, ledger@.utxos, *shown),
            Err(e) => outputs_named(ledger@.utxos, tx.inputs@) is Err && e == (Error::NoUtxo {
                outpoint: outputs_named(ledger@.utxos, tx.inputs@)->Err_0,
            }),
        },
{
    match ledger.fill_transaction(tx) {
        Err(e) => Err(e),
        Ok(filled) => {
            let mut filled = filled;
            filled.actor_address = match shown {
                Some(authorization) => Some(authorization.get_address()),
                None => None,
            };
            Ok(filled)
        },
    }
}

fn fill_all(
    ledger: &Ledger,
    txs: &Vec<Transaction>,
    proofs: &Vec<Option<Authorization>>,
) -> (r: Result<Vec<FilledTransaction>, Error>)
    ensures
        match r {
            Ok(filled) => {
                &&& missing_input(ledger@.utxos, txs@) is None
                &&& are_filled(filled@, txs@, ledger@.utxos, proofs@)
            },
            Err(e) => missing_input(ledger@.utxos, txs@) is Some && e == (Error::NoUtxo {
                outpoint: missing_input(ledger@.utxos, txs@)->Some_0,
            }),
        },
{
    let mut list: Vec<FilledTransaction> = Vec::new();
    let mut i: usize = 0;
    assert(txs@.subrange(0, 0) =~= Seq::empty());
    while i < txs.len()
        invariant
            i <= txs@.len(),
            missing_input(ledger@.utxos, txs@.subrange(0, i as int)) is None,
            list@.len() == i,
            forall|j: int|
                0 <= j < i ==> is_filled_tx(
                    #[trigger] list@[j],
                    txs@[j],
                    ledger@.utxos,
                    proof_at(proofs@, j),
                ),
        decreases txs@.len() - i,
    {
        proof {
            assert(txs@.subrange(0, i + 1).drop_last() =~= txs@.subrange(0, i as int));
        }
        let shown: Option<Authorization> = if i < proofs.len() {
            proofs[i]
        } else {
            None
        };
        match fill_with_actor(ledger, &txs[i], &shown) {
            Err(e) => {
                proof {
                    lemma_missing_prefix(ledger@.utxos, txs@, i + 1);
                }
                return Err(e);
            },
            Ok(filled) => list.push(filled),
        }
        i += 1;
    }
    assert(txs@.subrange(0, i as int) =~= txs@);
    Ok(list)
}

/// All inputs of some transactions, in their order.
pub open spec fn all_inputs(txs: Seq<Transaction>) -> Seq<OutPoint>
    decreases txs.len(),
{
    if txs.len() == 0 {
        Seq::empty()
    } else {
        all_inputs(txs.drop_last()) + txs.last().inputs@
    }
}

/// A place in the inputs of a transaction.
spec fn noted_inputs(noted: Map<OutPoint, ()>, inputs: Seq<OutPoint>) -> bool {
    &&& inputs.no_duplicates()
    &&& forall|o: OutPoint| #[trigger] noted.dom().contains(o) <==> inputs.contains(o)
}

proof fn lemma_repeated(a: Seq<OutPoint>, b: Seq<OutPoint>, i: int)
    requires
        0 <= i < b.len(),
        (a + b.subrange(0, i)).contains(b[i]),
    ensures
        !(a + b).no_duplicates(),
{
    let front = a + b.subrange(0, i);
    let k = front.index_of(b[i]);
    assert(front[k] == b[i]);
    if k < a.len() {
        assert((a + b)[k] == b[i]);
    } else {
        assert((a + b)[k] == b[k - a.len()]);
    }
    assert((a + b)[a.len() + i] == b[i]);
}

proof fn lemma_longer(txs: Seq<Transaction>, n: int)
    requires
        0 <= n <= txs.len(),
        !all_inputs(txs.subrange(0, n)).no_duplicates(),
    ensures
        !all_inputs(txs).no_duplicates(),
    decreases txs.len() - n,
{
    if n == txs.len() {
        assert(txs.subrange(0, n) =~= txs);
    } else {
        assert(txs.subrange(0, n + 1).drop_last() =~= txs.subrange(0, n));
        let a = all_inputs(txs.subrange(0, n));
        let b = txs[n].inputs@;
        assert(all_inputs(txs.subrange(0, n + 1)) == a + b);
        if (a + b).no_duplicates() {
            assert forall|i: int, j: int| 0 <= i < a.len() && 0 <= j < a.len() && i != j implies a[i]
                != a[j] by {
                assert((a + b)[i] == a[i] && (a + b)[j] == a[j]);
            }
        }
        lemma_longer(txs, n + 1);
    }
}

/// Whether two inputs of some transactions are the same.
fn spends_twice(txs: &Vec<Transaction>) -> (r: bool)
    ensures
        r == !all_inputs(txs@).no_duplicates(),
{
    let mut noted: Table<OutPoint, ()> = Table::new();
    let mut i: usize = 0;
    assert(txs@.subrange(0, 0) =~= Seq::empty());
    while i < txs.len()
        invariant
            i <= txs@.len(),
            noted_inputs(noted@, all_inputs(txs@.subrange(0, i as int))),
        decreases txs@.len() - i,
    {
        let ghost a = all_inputs(txs@.subrange(0, i as int));
        let inputs = &txs[i].inputs;
        let ghost b = inputs@;
        proof {
            assert(txs@.subrange(0, i + 1).drop_last() =~= txs@.subrange(0, i as int));
            assert(all_inputs(txs@.subrange(0, i + 1)) == a + b);
            assert(a + b.subrange(0, 0) =~= a);
        }
        let mut k: usize = 0;
        while k < inputs.len()
            invariant
                k <= b.len(),
                b == inputs@,
                i < txs@.len(),
                all_inputs(txs@.subrange(0, i + 1)) == a + b,
                noted_inputs(noted@, a + b.subrange(0, k as int)),
            decreases b.len() - k,
        {
            let ghost front = a + b.subrange(0, k as int);
            if noted.contains(&inputs[k]) {
                proof {
                    lemma_repeated(a, b, k as int);
                    lemma_longer(txs@, i + 1);
                }
                return true;
            }
            noted.put(inputs[k], ());
            proof {
                let next = a + b.subrange(0, k + 1);
                assert(next =~= front.push(b[k as int]));
                assert(next[front.len() as int] == b[k as int]);
                assert forall|o: OutPoint| #[trigger] noted@.dom().contains(o) <==> next.contains(
                    o,
                ) by {
                    if front.contains(o) {
                        assert(next[front.index_of(o)] == o);
                    }
                    if next.contains(o) && o != b[k as int] {
                        assert(front[next.index_of(o)] == o);
                    }
                }
                assert forall|x: int, y: int|
                    0 <= x < next.len() && 0 <= y < next.len() && x != y implies next[x]
                    != next[y] by {
                    if x == front.len() {
                        assert(front.contains(front[y]));
                    } else if y == front.len() {
                        assert(front.contains(front[x]));
                    } else {
                        assert(front[x] != front[y]);
                    }
                }
            }
            k += 1;
        }
        assert(b.subrange(0, k as int) =~= b);
        i += 1;
    }
    assert(txs@.subrange(0, i as int) =~= txs@);
    false
}

/// The first transaction that is not valid.
pub open spec fn checks_problem(
    state: State,
    filled: Seq<FilledTransaction>,
    current_period: u32,
    figures: Seq<CheckFigures>,
    limits: TradeLimits,
) -> Option<Error>
    decreases filled.len(),
{
    if filled.len() == 0 {
        None
    } else {
        match checks_problem(state, filled.drop_last(), current_period, figures, limits) {
            Some(e) => Some(e),
            None => match checked_fee(
                state,
                filled.last(),
                current_period,
                figures[filled.len() - 1],
                limits,
            ) {
                Err(e) => Some(e),
                Ok(_) => None,
            },
        }
    }
}

proof fn lemma_checks_prefix(
    state: State,
    filled: Seq<FilledTransaction>,
    current_period: u32,
    figures: Seq<CheckFigures>,
    limits: TradeLimits,
    n: int,
)
    requires
        0 <= n <= filled.len(),
        checks_problem(state, filled.subrange(0, n), current_period, figures, limits) is Some,
    ensures
        checks_problem(state, filled, current_period, figures, limits) == checks_problem(
            state,
            filled.subrange(0, n),
            current_period,
            figures,
            limits,
        ),
    decreases filled.len() - n,
{
    if n == filled.len() {
        assert(filled.subrange(0, n) =~= filled);
    } else {
        assert(filled.subrange(0, n + 1).drop_last() =~= filled.subrange(0, n));
        lemma_checks_prefix(state, filled, current_period, figures, limits, n + 1);
    }
}

/// There are figures for each transaction, and they are those that it needs.
pub open spec fn all_figures_fit(txs: Seq<Transaction>, figures: Seq<CheckFigures>) -> bool {
    &&& figures.len() == txs.len()
    &&& forall|i: int|
        0 <= i < txs.len() ==> check_figures_fit((#[trigger] txs[i]).data, figures[i])
}

fn check_all(
    state: &State,
    filled: &Vec<FilledTransaction>,
    current_period: u32,
    figures: &Vec<CheckFigures>,
    limits: &TradeLimits,
) -> (r: Result<(), Error>)
    requires
        current_period + FUTURE_PERIODS < u32::MAX,
        figures@.len() == filled@.len(),
        forall|i: int|
            0 <= i < filled@.len() ==> check_figures_fit(
                (#[trigger] filled@[i]).transaction.data,
                figures@[i],
            ),
    ensures
        checks_problem(*state, filled@, current_period, figures@, *limits) == match r {
            Ok(()) => None::<Error>,
            Err(e) => Some(e),
        },
{
    let mut i: usize = 0;
    assert(filled@.subrange(0, 0) =~= Seq::empty());
    while i < filled.len()
        invariant
            i <= filled@.len() == figures@.len(),
            current_period + FUTURE_PERIODS < u32::MAX,
            forall|k: int|
                0 <= k < filled@.len() ==> check_figures_fit(
                    (#[trigger] filled@[k]).transaction.data,
                    figures@[k],
                ),
            checks_problem(
                *state,
                filled@.subrange(0, i as int),
                current_period,
                figures@,
                *limits,
            ) is None,
        decreases filled@.len() - i,
    {
        proof {
            assert(filled@.subrange(0, i + 1).drop_last() =~= filled@.subrange(0, i as int));
        }
        match BlockValidator::validate_filled_transaction(
            state,
            &filled[i],
            current_period,
            &figures[i],
            limits,
        ) {
            Err(e) => {
                proof {
                    lemma_checks_prefix(
                        *state,
                        filled@,
                        current_period,
                        figures@,
                        *limits,
                        i + 1,
                    );
                }
                return Err(e);
            },
            Ok(_) => {},
        }
        i += 1;
    }
    assert(filled@.subrange(0, i as int) =~= filled@);
    Ok(())
}

/// The coins that are spent, in the order of the inputs.
pub open spec fn all_spent_coins(filled: Seq<FilledTransaction>) -> Seq<FilledOutput>
    decreases filled.len(),
{
    if filled.len() == 0 {
        Seq::empty()
    } else {
        all_spent_coins(filled.drop_last()) + filled.last().spent_utxos@
    }
}

/// Each signature is by the owner of the coin that it stands beside.
pub open spec fn signers_own(authorizations: Seq<Authorization>, coins: Seq<FilledOutput>) -> bool {
    forall|i: int|
        0 <= i < authorizations.len() && i < coins.len() ==> address_of(
            (#[trigger] authorizations[i]).verifying_key,
        ) == coins[i].address
}

fn check_signers(authorizations: &Vec<Authorization>, filled: &Vec<FilledTransaction>) -> (r: bool)
    ensures
        r == signers_own(authorizations@, all_spent_coins(filled@)),
{
    let ghost all = all_spent_coins(filled@);
    let mut at: usize = 0;
    let mut i: usize = 0;
    assert(filled@.subrange(0, 0) =~= Seq::empty());
    while i < filled.len()
        invariant
            i <= filled@.len(),
            all == all_spent_coins(filled@),
            at == all_spent_coins(filled@.subrange(0, i as int)).len(),
            at <= authorizations@.len(),
            forall|j: int|
                0 <= j < at ==> j < all.len() && address_of(
                    (#[trigger] authorizations@[j]).verifying_key,
                ) == all[j].address,
        decreases filled@.len() - i,
    {
        let coins = &filled[i].spent_utxos;
        let ghost before = all_spent_coins(filled@.subrange(0, i as int));
        proof {
            assert(filled@.subrange(0, i + 1).drop_last() =~= filled@.subrange(0, i as int));
            assert(all_spent_coins(filled@.subrange(0, i + 1)) == before + coins@);
            lemma_coins_so_far(filled@, i + 1);
        }
        let ghost start = at as int;
        let mut k: usize = 0;
        while k < coins.len()
            invariant
                k <= coins@.len(),
                i < filled@.len(),
                all == all_spent_coins(filled@),
                at == start + k,
                start == before.len(),
                at <= authorizations@.len(),
                before.len() + coins@.len() <= all.len(),
                forall|j: int|
                    0 <= j < before.len() + coins@.len() ==> #[trigger] all[j] == (before
                        + coins@)[j],
                forall|j: int|
                    0 <= j < at ==> j < all.len() && address_of(
                        (#[trigger] authorizations@[j]).verifying_key,
                    ) == all[j].address,
            decreases coins@.len() - k,
        {
            if at >= authorizations.len() {
                return true;
            }
            assert(all[at as int] == coins@[k as int]);
            if authorizations[at].get_address() != coins[k].address {
                assert(address_of(authorizations@[at as int].verifying_key)
                    != all[at as int].address);
                return false;
            }
            at += 1;
            k += 1;
        }
        i += 1;
    }
    assert(filled@.subrange(0, i as int) =~= filled@);
    true
}

/// The coins of the first transactions are the first coins.
proof fn lemma_coins_so_far(filled: Seq<FilledTransaction>, n: int)
    requires
        0 <= n <= filled.len(),
    ensures
        all_spent_coins(filled.subrange(0, n)).len() <= all_spent_coins(filled).len(),
        forall|j: int|
            0 <= j < all_spent_coins(filled.subrange(0, n)).len() ==> #[trigger] all_spent_coins(
                filled,
            )[j] == all_spent_coins(filled.subrange(0, n))[j],
    decreases filled.len() - n,
{
    if n == filled.len() {
        assert(filled.subrange(0, n) =~= filled);
    } else {
        assert(filled.subrange(0, n + 1).drop_last() =~= filled.subrange(0, n));
        lemma_coins_so_far(filled, n + 1);
        let a = all_spent_coins(filled.subrange(0, n));
        let b = all_spent_coins(filled.subrange(0, n + 1));
        assert(b == a + filled[n].spent_utxos@);
        assert forall|j: int| 0 <= j < a.len() implies #[trigger] all_spent_coins(filled)[j]
            == a[j] by {
            assert(b[j] == a[j]);
        }
    }
}

/// What is wrong with a block by its header and its coinbase, and with the
/// inputs of its transactions.
pub open spec fn outline_problem(
    state: State,
    header: Header,
    body: Body,
    merkle_root: MerkleRoot,
) -> Option<Error> {
    if header.prev_side_hash != state.tip {
        Some(
            Error::InvalidHeader(
                InvalidHeader::PrevSideHash {
                    expected: state.tip,
                    received: header.prev_side_hash,
                },
            ),
        )
    } else if merkle_root != header.merkle_root {
        Some(Error::InvalidBody { expected: header.merkle_root, computed: merkle_root })
    } else if total_value(body.coinbase@) > u64::MAX {
        Some(Error::AmountOverflow(AmountOverflowError))
    } else {
        match missing_input(state.ledger@.utxos, body.transactions@) {
            Some(outpoint) => Some(Error::NoUtxo { outpoint }),
            None => None,
        }
    }
}

/// What is wrong with the transactions of a block, once they are filled: no
/// coin is spent twice, no decision is claimed twice, each transaction is
/// valid, and each coin is spent by its owner.
pub open spec fn body_problem(
    state: State,
    filled: Seq<FilledTransaction>,
    body: Body,
    key: Seq<u8>,
    current_period: u32,
    figures: Seq<CheckFigures>,
    limits: TradeLimits,
) -> Option<Error> {
    if !all_inputs(body.transactions@).no_duplicates() {
        Some(Error::UtxoDoubleSpent)
    } else {
        match claims_noted(body.transactions@) {
            Err(id) => Some(Error::DuplicateDecisionClaim(id)),
            Ok(_) => match checks_problem(state, filled, current_period, figures, limits) {
                Some(e) => Some(e),
                None => if body.authorizations@.len() != input_count(body.transactions@) {
                    Some(Error::AuthorizationError)
                } else if !signers_own(body.authorizations@, all_spent_coins(filled)) {
                    Some(Error::WrongPubKeyForAddress)
                } else if body_verifies(
                    key,
                    body.authorizations@,
                    body.transactions@,
                ) is Err || all_proofs_hold(body.actor_proofs@, body.transactions@) is Err {
                    Some(Error::AuthorizationError)
                } else {
                    None
                },
            },
        }
    }
}

/// What comes of checking a signed transaction: its fee, or why it is not
/// valid.
pub open spec fn is_checked(
    state: State,
    key: Seq<u8>,
    transaction: AuthorizedTransaction,
    current_period: u32,
    figures: CheckFigures,
    limits: TradeLimits,
    r: Result<u64, Error>,
) -> bool {
    match outputs_named(state.ledger@.utxos, transaction.transaction.inputs@) {
        Err(outpoint) => r == Err::<u64, Error>(Error::NoUtxo { outpoint }),
        Ok(coins) => exists|filled: FilledTransaction| #[trigger]
            is_filled_tx(
                filled,
                transaction.transaction,
                state.ledger@.utxos,
                transaction.actor_proof,
            ) && r == if transaction.authorizations@.len() != coins.len() {
                Err(Error::AuthorizationError)
            } else if !signers_own(transaction.authorizations@, coins) {
                Err(Error::WrongPubKeyForAddress)
            } else if transaction_verifies(key, transaction) is Err || actor_proof_holds(
                transaction.actor_proof,
                transaction.transaction,
            ) is Err {
                Err(Error::AuthorizationError)
            } else {
                checked_fee(state, filled, current_period, figures, limits)
            },
    }
}

/// What comes of checking a block against the state.
pub open spec fn is_prevalidated(
    state: State,
    key: Seq<u8>,
    header: Header,
    body: Body,
    merkle_root: MerkleRoot,
    current_period: u32,
    figures: Seq<CheckFigures>,
    limits: TradeLimits,
    r: Result<PrevalidatedBlock, Error>,
) -> bool {
    match outline_problem(state, header, body, merkle_root) {
        Some(e) => r == Err::<PrevalidatedBlock, Error>(e),
        None => exists|filled: Seq<FilledTransaction>| #[trigger]
            are_filled(
                filled,
                body.transactions@,
                state.ledger@.utxos,
                body.actor_proofs@,
            ) && match body_problem(
                state,
                filled,
                body,
                key,
                current_period,
                figures,
                limits,
            ) {
                Some(e) => r == Err::<PrevalidatedBlock, Error>(e),
                None => {
                    &&& r is Ok
                    &&& r->Ok_0.filled_transactions@ == filled
                    &&& r->Ok_0.computed_merkle_root == merkle_root
                    &&& r->Ok_0.coinbase_value == total_value(body.coinbase@)
                    &&& r->Ok_0.next_height == match state.height {
                        Some(height) => (height + 1) as u32,
                        None => 0,
                    }
                },
            },
    }
}

fn same_tip(a: &Option<BlockHash>, b: &Option<BlockHash>) -> (r: bool)
    ensures
        r == (*a == *b),
{
    match (a, b) {
        (None, None) => true,
        (Some(a), Some(b)) => *a == *b,
        _ => false,
    }
}

impl BlockValidator {
    /// Checks a block against the state, and keeps what was worked out.
    /// `merkle_root` is the root of the body, and `current_period` the period
    /// of the block.
    pub fn prevalidate(
        state: &State,
        ctxt: &BatchVerificationContext,
        header: &Header,
        body: &Body,
        merkle_root: MerkleRoot,
        current_period: u32,
        figures: &Vec<CheckFigures>,
        limits: &TradeLimits,
    ) -> (r: Result<PrevalidatedBlock, Error>)
        requires
            current_period + FUTURE_PERIODS < u32::MAX,
            state.height != Some(u32::MAX),
            all_figures_fit(body.transactions@, figures@),
        ensures
            is_prevalidated(
                *state,
                ctxt.key(),
                *header,
                *body,
                merkle_root,
                current_period,
                figures@,
                *limits,
                r,
            ),
    {
        if !same_tip(&header.prev_side_hash, &state.tip) {
            return Err(
                Error::InvalidHeader(
                    InvalidHeader::PrevSideHash {
                        expected: state.tip,
                        received: header.prev_side_hash,
                    },
                ),
            );
        }
        if merkle_root != header.merkle_root {
            return Err(
                Error::InvalidBody { expected: header.merkle_root, computed: merkle_root },
            );
        }
        let next_height: u32 = match state.height {
            Some(height) => height + 1,
            None => 0,
        };
        let coinbase_value: u64 = match checked_total(body.coinbase.as_slice()) {
            None => return Err(Error::AmountOverflow(AmountOverflowError)),
            Some(value) => value,
        };
        let filled = match fill_all(&state.ledger, &body.transactions, &body.actor_proofs) {
            Err(e) => return Err(e),
            Ok(filled) => filled,
        };
        assert(are_filled(
            filled@,
            body.transactions@,
            state.ledger@.utxos,
            body.actor_proofs@,
        ));
        if spends_twice(&body.transactions) {
            return Err(Error::UtxoDoubleSpent);
        }
        match BlockValidator::check_duplicate_decision_claims(&body.transactions) {
            Err(e) => return Err(e),
            Ok(()) => {},
        }
        proof {
            assert forall|i: int| 0 <= i < filled@.len() implies check_figures_fit(
                (#[trigger] filled@[i]).transaction.data,
                figures@[i],
            ) by {
                assert(is_filled_tx(
                    filled@[i],
                    body.transactions@[i],
                    state.ledger@.utxos,
                    proof_at(body.actor_proofs@, i),
                ));
                assert(check_figures_fit(body.transactions@[i].data, figures@[i]));
            }
        }
        match check_all(state, &filled, current_period, figures, limits) {
            Err(e) => return Err(e),
            Ok(()) => {},
        }
        if body.authorizations.len() as u128 != count_inputs(&body.transactions) {
            return Err(Error::AuthorizationError);
        }
        if !check_signers(&body.authorizations, &filled) {
            return Err(Error::WrongPubKeyForAddress);
        }
        match verify_body(ctxt, body) {
            Err(_) => return Err(Error::AuthorizationError),
            Ok(()) => {},
        }
        Ok(
            PrevalidatedBlock {
                filled_transactions: filled,
                computed_merkle_root: merkle_root,
                coinbase_value,
                next_height,
            },
        )
    }

    /// Checks a signed transaction against the state, and says what fee it
    /// pays.
    pub fn validate_transaction(
        state: &State,
        ctxt: &BatchVerificationContext,
        transaction: &AuthorizedTransaction,
        current_period: u32,
        figures: &CheckFigures,
        limits: &TradeLimits,
    ) -> (r: Result<u64, Error>)
        requires
            current_period + FUTURE_PERIODS < u32::MAX,
            check_figures_fit(transaction.transaction.data, *figures),
        ensures
            is_checked(
                *state,
                ctxt.key(),
                *transaction,
                current_period,
                *figures,
                *limits,
                r,
            ),
    {
        let filled = match fill_with_actor(
            &state.ledger,
            &transaction.transaction,
            &transaction.actor_proof,
        ) {
            Err(e) => return Err(e),
            Ok(filled) => filled,
        };
        assert(is_filled_tx(
            filled,
            transaction.transaction,
            state.ledger@.utxos,
            transaction.actor_proof,
        ));
        let count: usize = transaction.authorizations.len();
        if count != filled.spent_utxos.len() {
            return Err(Error::AuthorizationError);
        }
        let mut i: usize = 0;
        while i < count
            invariant
                i <= count == transaction.authorizations@.len() == filled.spent_utxos@.len(),
                is_filled_tx(
                    filled,
                    transaction.transaction,
                    state.ledger@.utxos,
                    transaction.actor_proof,
                ),
                forall|j: int|
                    0 <= j < i ==> address_of(
                        (#[trigger] transaction.authorizations@[j]).verifying_key,
                    ) == filled.spent_utxos@[j].address,
            decreases count - i,
        {
            if transaction.authorizations[i].get_address() != filled.spent_utxos[i].address {
                assert(address_of(transaction.authorizations@[i as int].verifying_key)
                    != filled.spent_utxos@[i as int].address);
                return Err(Error::WrongPubKeyForAddress);
            }
            i += 1;
        }
        match verify_transaction(ctxt, transaction) {
            Err(_) => return Err(Error::AuthorizationError),
            Ok(()) => {},
        }
        BlockValidator::validate_filled_transaction(
            state,
            &filled,
            current_period,
            figures,
            limits,
        )
    }
}

} // verus!
