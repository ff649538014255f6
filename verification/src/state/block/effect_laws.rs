//! What holds of the effect that the transactions of a block have.

use vstd::prelude::*;

use crate::state::block::claims::{decision_claim_applied, entries_unclaimed, payloads_unclaimed};
use crate::state::block::connect::{
    all_coins_moved, creation_applied, transactions_written, transfers_at, tx_applied, Applying,
    TxFigures,
};
use crate::state::block::disconnect::{data_reverted, Reverting, UndoFigures};
use crate::state::block::trades::{amplify_applied, amplify_unmade, trade_applied, trade_unmade};
use crate::state::block::votes::{
    ballot_applied, ballot_removed, transfer_applied, vote_applied, vote_removed,
};
use crate::state::consolidation::{block_trades, consolidated, holdings, FundsAddresses};
use crate::state::markets::database::MarketsView;
use crate::state::markets::MarketId;
use crate::state::update::{markets_after, votes_put, StateUpdateView, Written};
use crate::state::{Error, State};
use crate::types::transaction::{FilledTransaction, TransactionData};
use crate::validation::block::fees_problem;

verus! {

/// Each kind of transaction has its own effect, and no other. Only a trade is ever
/// skipped, and then has none.
pub proof fn transactions_have_the_effect_of_their_kind(
    before: Applying,
    after: Applying,
    tx: FilledTransaction,
    figures: TxFigures,
    timestamp: Option<u64>,
    height: u32,
    miner_fee: u64,
    skipped: bool,
)
    requires
        tx_applied(before, after, tx, figures, timestamp, height, miner_fee, Ok(skipped)),
    ensures
        skipped ==> after == before && tx.transaction.data is Some
            && tx.transaction.data->0 is Trade,
        tx.transaction.data is None ==> after == before,
        match tx.transaction.data {
            Some(TransactionData::ClaimDecision(_)) => {
                &&& decision_claim_applied(
                    before.decisions,
                    tx,
                    height,
                    figures->Claim_aligned,
                ) is Ok
                &&& after.decisions == decision_claim_applied(
                    before.decisions,
                    tx,
                    height,
                    figures->Claim_aligned,
                )->Ok_0
            },
            Some(TransactionData::CreateMarket { .. }) => true,
            _ => after.decisions == before.decisions,
        },
        match tx.transaction.data {
            Some(TransactionData::TransferReputation { .. }) => {
                let made = transfer_applied(before.reputation, tx, figures->Transfer_0);
                &&& made is Ok
                &&& after.reputation == made->Ok_0.0
                &&& after.transfers.dom().contains(height)
                &&& after.transfers[height].len() > 0
                &&& after.transfers[height].last() == made->Ok_0.1
                &&& after.transfers[height].drop_last() == transfers_at(before.transfers, height)
            },
            _ => after.reputation == before.reputation && after.transfers == before.transfers,
        },
        match tx.transaction.data {
            Some(TransactionData::Trade { .. }) => !skipped ==> trade_applied(
                before.markets,
                before.update,
                tx,
                figures->Trade_0,
                miner_fee,
            ) == Ok::<Option<StateUpdateView>, Error>(Some(after.update)),
            Some(TransactionData::AmplifyBeta { .. }) => amplify_applied(before.update, tx)
                == Ok::<StateUpdateView, Error>(after.update),
            Some(TransactionData::SubmitVote { .. }) => vote_applied(
                before.update,
                tx,
                timestamp,
                height,
                figures->Vote_0,
            ) == Ok::<StateUpdateView, Error>(after.update),
            Some(TransactionData::SubmitBallot { .. }) => ballot_applied(
                before.update,
                tx,
                timestamp,
                height,
                figures->Ballot_0@,
            ) == Ok::<StateUpdateView, Error>(after.update),
            Some(TransactionData::CreateMarket { .. }) => creation_applied(
                before,
                after,
                tx,
                height,
                figures->Creation_aligned@,
                figures->Creation_plan,
                Ok(false),
            ),
            _ => after.update == before.update,
        },
        match tx.transaction.data {
            Some(TransactionData::CreateMarket { .. }) => true,
            _ => after.markets == before.markets,
        },
{
    match tx.transaction.data {
        Some(TransactionData::TransferReputation { .. }) => {
            assert(after.transfers[height].drop_last() =~= transfers_at(
                before.transfers,
                height,
            ));
        },
        _ => {},
    }
}

/// A block is written down only if its fees cover the pay of the miner and all its
/// coins can be moved. What its votes, trades and markets add up to is then
/// stored, and traders and markets are paid.
pub proof fn written_blocks_are_paid_for(
    state: State,
    update: StateUpdateView,
    addresses: Map<MarketId, FundsAddresses>,
    coinbase_value: u64,
    txs: Seq<FilledTransaction>,
    skipped: Seq<u32>,
    height: u32,
    miner_fee: u64,
    written: Written,
)
    requires
        transactions_written(
            state,
            update,
            addresses,
            coinbase_value,
            txs,
            skipped,
            height,
            miner_fee,
        ) == Ok::<Written, Error>(written),
    ensures
        fees_problem(coinbase_value, txs, skipped, miner_fee) is None,
        all_coins_moved(state.ledger@, txs, skipped) is Ok,
        markets_after(state.markets@, update, height) is Ok,
        written.voting == votes_put(state.voting@, update.votes),
        ({
            let moved = all_coins_moved(state.ledger@, txs, skipped)->Ok_0;
            let traded = markets_after(state.markets@, update, height)->Ok_0;
            let paid = consolidated(
                holdings(moved, traded),
                addresses,
                block_trades(update.sells, update.buys, height, miner_fee),
                update.input_changes,
            );
            &&& paid is Ok
            &&& written.ledger == paid->Ok_0.0.ledger
            &&& written.markets == (MarketsView { funds: paid->Ok_0.0.funds, ..traded })
            &&& written.undo == paid->Ok_0.1
        }),
{
}

/// Taking a transaction back undoes what its kind did: the claims, the market, the
/// trade, the votes, or what was added to a market; and nothing else.
pub proof fn transactions_are_taken_back_by_kind(
    at: Reverting,
    tx: FilledTransaction,
    figures: UndoFigures,
    height: u32,
    after: Reverting,
)
    requires
        data_reverted(at, tx, figures, height) == Ok::<Reverting, Error>(after),
    ensures
        match tx.transaction.data {
            None => after == at,
            Some(TransactionData::ClaimDecision(payload)) => {
                &&& after.decisions == entries_unclaimed(at.decisions, payload.decisions@)
                &&& after == (Reverting { decisions: after.decisions, ..at })
            },
            Some(TransactionData::CreateMarket { .. }) => {
                &&& !after.markets.markets.dom().contains(figures->Creation_0)
                &&& forall|m: MarketId|
                    m != figures->Creation_0 ==> (#[trigger] after.markets.markets.dom().contains(m)
                        <==> at.markets.markets.dom().contains(m)) && after.markets.markets[m]
                        == at.markets.markets[m]
                &&& after.decisions == payloads_unclaimed(
                    at.decisions,
                    tx.transaction.data->0->CreateMarket_new_claims@,
                )
                &&& after.voting == at.voting
                &&& after.ledger == at.ledger
                &&& after.delta == at.delta
            },
            Some(TransactionData::Trade { .. }) => {
                let trade = tx.transaction.data->0;
                &&& trade_unmade(at.markets, tx, height, figures->Trade_0)
                    == Ok::<MarketsView, Error>(after.markets)
                &&& after.delta is Some
                &&& after.delta->0.address == trade->Trade_trader
                &&& after.delta->0.market_id == trade->Trade_market_id
                &&& after.delta->0.outcome_index == trade->Trade_outcome_index
                &&& trade->Trade_shares != i64::MIN ==> after.delta->0.share_delta
                    == -trade->Trade_shares
                &&& after.decisions == at.decisions
                &&& after.voting == at.voting
            },
            Some(
                TransactionData::SubmitVote { voter, decision_id_bytes, vote_value, voting_period },
            ) => {
                &&& after.voting == vote_removed(at.voting, voter, decision_id_bytes)
                &&& after == (Reverting { voting: after.voting, ..at })
            },
            Some(TransactionData::SubmitBallot { voter, votes, voting_period }) => {
                &&& after.voting == ballot_removed(at.voting, voter, votes@)
                &&& after == (Reverting { voting: after.voting, ..at })
            },
            Some(TransactionData::TransferReputation { .. }) => after == at,
            Some(TransactionData::AmplifyBeta { .. }) => {
                &&& amplify_unmade(at.markets, tx) == Ok::<MarketsView, Error>(after.markets)
                &&& after == (Reverting { markets: after.markets, ..at })
            },
        },
{
}

} // verus!
