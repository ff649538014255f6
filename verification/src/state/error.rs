//! What can go wrong with the state.

use vstd::prelude::*;

use crate::state::decisions::{DecisionId, DecisionState};
use crate::state::markets::{MarketError, MarketId, MarketState};
use crate::state::peg::WithdrawalBundleStatus;
use crate::state::voting::types::VotingPeriodId;
use crate::types::transaction::{FilledTransaction, OutPoint};
use crate::types::{Address, AmountOverflowError, AmountUnderflowError, Real};
use crate::types::{BlockHash, M6id, MainBlockHash, MerkleRoot};

verus! {

/// Why a header is not valid.
#[allow(inconsistent_fields)]
#[derive(Debug)]
pub enum InvalidHeader {
    BlockHash { expected: BlockHash, computed: BlockHash },
    PrevSideHash { expected: Option<BlockHash>, received: Option<BlockHash> },
}

/// The outputs of a transaction could not be filled.
#[derive(Debug)]
pub struct FillTxOutputContents(pub Box<FilledTransaction>);

/// Why something is refused, with what the refusal speaks of.
#[allow(inconsistent_fields)]
#[derive(Clone, Copy, Debug)]
pub enum Reason {
    /// What words alone say.
    Text(&'static str),

    MarketDoesNotExist(MarketId),
    MarketNotFound(MarketId),
    MarketAlreadyExists(MarketId),
    DuplicateMarketCreation(MarketId),
    MarketCreatedAndUpdated(MarketId),
    LiquidityBaseOverflow(MarketId),
    NoTreasuryOutput(MarketId),
    MarketNotTrading(MarketState),
    CannotTrade(MarketState),
    MarketTransition { from: MarketState, to: MarketState },
    OutcomeIndexExceeds { index: u32, outcomes: usize },
    OutcomeIndexOutOfRange { index: u32, outcomes: usize },
    NegativeMarketShares { shares: i64, outcome: u32 },
    NegativeShareQuantity { index: usize, shares: i64 },
    TooFewOutcomes(usize),
    InsufficientShares { selling: u64, owned: i64, outcome: u32 },
    InsufficientEffectiveShares { selling: u64, owned: i64, effective: i128, outcome: u32 },
    BuyCostAboveLimit { cost_sats: u64, miner_fee_sats: u64, limit_sats: u64 },
    SellProceedsBelowLimit { proceeds_sats: u64, limit_sats: u64 },
    TreasuryUnderflow {
        gross_sats: u64,
        payouts_sats: u64,
        fees_sats: u64,
        treasury_sats: u64,
        market_id: MarketId,
    },
    BuyChangeUnderflow {
        input_sats: u64,
        miner_fee_sats: u64,
        cost_sats: u64,
        market_fee_sats: u64,
    },
    InputBelowLimit { input_sats: u64, limit_sats: u64 },
    InputBelowMinerFee { input_sats: u64, miner_fee_sats: u64 },
    InputBelowAmount { input_sats: u64, amount_sats: u64, miner_fee_sats: u64 },
    NoProofOfTrader(Address),
    NoProofOfAuthor(Address),
    NotTheAuthor { author: Address, creator: Address },
    UnknownTradeBlock(BlockHash),
    InactiveTradeBlock(BlockHash),
    TradeBlockTooOld { depth: u32, window: u32 },
    TradingFeeOutOfRange(Real),

    ClaimSize { scaled: bool, got: usize },
    CategoryClaimSize(usize),
    LabelsDoNotMatch { labels: usize, options: usize },
    AlreadyClaimed(DecisionId),
    ListingFeeTooLow { fee_sats: u64, required_sats: u64 },
    DuplicateNewClaim(DecisionId),
    NewDecisionIsNoCategory(DecisionId),
    DecisionIsNoCategory(DecisionId),
    NoReferencedDecision(DecisionId),
    ReferencedDecisionNeverClaimed(DecisionId),
    DecisionDoesNotExist(DecisionId),
    DecisionIsEmpty(DecisionId),
    NoStateHistory(DecisionId),
    NothingToResolve(DecisionId),
    PeriodSettled(u32),
    DecisionInVoting(DecisionId),
    PeriodTooFarAhead { period: u32, last: u32 },
    PeriodNotActive { period: u32, first: u32, last: u32 },
    NoPricing(u32),
    NotUnlocked { index: u32, period: u32, mints: u64 },
    PeriodAboveMaximum { period: u32, maximum: u32 },
    IndexAboveMaximum { index: u32, maximum: u32 },
    TagTooLong { place: usize },
    InvalidBounds { min: Real, max: Real, increment: Real },
    RangeNotAligned { min: Real, max: Real, increment: Real },
    CannotStartVoting(DecisionState),
    CannotResolve(DecisionState),
    InvalidOutcome(Real),

    VoteOutsideRange { value: Real, min: Real, max: Real },
    VoteNotAligned { value: Real, min: Real, increment: Real },
    BinaryVoteOutOfRange(Real),
    NotAnOption { value: Real, options: usize },
    VotePeriodMismatch {
        decision_id: DecisionId,
        claim_period: u32,
        voting_period: u32,
        given: u32,
    },
    BallotPeriodMismatch { decision_id: DecisionId, required: u32, expected: u32 },
    BallotGivenPeriod { required: u32, given: u32 },
    InsufficientReputation { has: Real, needs: Real },
    PeriodClosed { period_id: VotingPeriodId, height: u32, timestamp: u64 },

    TxIndexOutOfBounds { index: u32, block_hash: BlockHash },

    FailedBundleNotFound(M6id),
    NoFailureStatus(M6id),
    PendingBundleUnknown(M6id),
    PendingBundleNotKnown(M6id),
    ExpectedPending(WithdrawalBundleStatus),
    ConfirmedResubmitted { m6id: M6id, event_block_hash: MainBlockHash },
    SubmittedResubmitted { m6id: M6id, height: u32, event_block_hash: MainBlockHash },
    UnknownMarkedDropped { m6id: M6id, height: u32 },
    DroppedMarkedPending(M6id),
    UnknownMarkedPending { m6id: M6id, height: u32 },
    UnknownMarkedFailed { m6id: M6id, height: u32 },
    ExpectedSubmitted(WithdrawalBundleStatus),
    ExpectedConfirmed(WithdrawalBundleStatus),
    ExpectedFailed(WithdrawalBundleStatus),
    BundleHeight { bundle: u32, block: u32 },
    FailedIdMismatch { latest: M6id, expected: M6id },
    FailedHeightMismatch { latest: u32, block: u32 },
    EventBlockMismatch { block: MainBlockHash, last: MainBlockHash },
    EventBlockHeight { block: u32, last: u32 },
    DepositBlockMismatch { block: MainBlockHash, last: MainBlockHash },
    DepositBlockHeight { block: u32, last: u32 },
}

#[derive(Debug)]
pub enum Error {
    Market(MarketError),
    AmountOverflow(AmountOverflowError),
    AmountUnderflow(AmountUnderflowError),
    AuthorizationError,
    BadCoinbaseOutputContent,
    InvalidScaled { reason: Reason },
    InvalidDecisionId { reason: Reason },
    InvalidDecisionState { reason: Reason },
    InvalidTransaction { reason: Reason },
    InvalidVoteValue { reason: Reason },
    DecisionAlreadyClaimed { decision_id: DecisionId },
    DecisionNotAvailable { decision_id: DecisionId, reason: Reason },
    TimestampOutOfRange,
    BundleTooHeavy { weight: u64, max_weight: u64 },
    DatabaseError(Reason),
    FillTxOutputContents(FillTxOutputContents),
    InvalidBody { expected: MerkleRoot, computed: MerkleRoot },
    InvalidHeader(InvalidHeader),
    NoDepositBlock,
    NotEnoughFees,
    NotEnoughValueIn,
    NoTip,
    NoStxo { outpoint: OutPoint },
    NoUtxo { outpoint: OutPoint },
    SpendWithdrawalOutput { outpoint: OutPoint },
    NoWithdrawalBundleEventBlock,
    UnknownWithdrawalBundle { m6id: M6id },
    UnknownWithdrawalBundleConfirmed { event_block_hash: MainBlockHash, m6id: M6id },
    UnknownWithdrawalBundleReconfirmed { event_block_hash: MainBlockHash, m6id: M6id },
    UnexpectedWithdrawalBundleInsolvency {
        event_block_hash: MainBlockHash,
        m6id: M6id,
        outpoint: OutPoint,
    },
    UtxoDoubleSpent,
    DuplicateDecisionClaim([u8; 3]),
    WrongPubKeyForAddress,
    /// The votes of a period have not been reckoned.
    ConsensusNotYetCalculated(VotingPeriodId),
    ConsensusConservationViolation { pre_sum: Real, post_sum: Real, drift: Real },
    ReputationAnchorViolation { total: Real, anchor: Real, drift: Real },
}

} // verus!
