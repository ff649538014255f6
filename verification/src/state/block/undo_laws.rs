//! What holds of a block that is taken back, part by part.

use vstd::prelude::*;

use crate::state::block::connect::{has_group, is_grouped, of_period, PeriodGroup};
use crate::state::block::disconnect::{
    batched, coinbase_unmade, data_reverted, end_undone, periods_up_to, reckonings_undone,
    start_undone, tip_before, tip_problem, Finished, Reverting, UndoFigures, Undone,
};
use crate::state::block::progress::last_taken;
use crate::state::block::trades::{amplify_unmade, trade_coins_removed, TradeShareDelta};
use crate::state::block::votes::transfers_undone;
use crate::state::consolidation::{
    buy_change_point, holdings, sell_input_change_point, sell_payout_point, unconsolidated,
};
use crate::state::decisions::database::PeriodEntries;
use crate::state::decisions::DecisionId;
use crate::state::ledger::LedgerView;
use crate::state::markets::database::MarketsView;
use crate::state::update::{accounts_changed, ShareChangeKey};
use crate::state::{Error, State};
use crate::table::rows_of;
use crate::types::block::Header;
use crate::types::transaction::{FilledTransaction, OutPoint, Trade};
use crate::types::{BlockHash, MerkleRoot};

verus! {

/// A block is taken back where it is the tip and its body is the one that its header
/// names, and only then.
pub proof fn the_tip_is_taken_back(
    tip: Option<BlockHash>,
    height: Option<u32>,
    header: Header,
    block_hash: BlockHash,
    merkle_root: MerkleRoot,
)
    ensures
        tip_problem(tip, height, header, block_hash, merkle_root) is None <==> tip == Some(block_hash)
            && height is Some && merkle_root == header.merkle_root,
{
}

/// Below a block is its parent, one lower; below the first is nothing.
pub proof fn parents_become_the_tip(header: Header, height: u32)
    ensures
        header.prev_side_hash is Some && height > 0 ==> tip_before(header, height) == Ok::<
            (Option<BlockHash>, Option<u32>),
            Error,
        >((header.prev_side_hash, Some((height - 1) as u32))),
        header.prev_side_hash is None && height == 0 ==> tip_before(header, height) == Ok::<
            (Option<BlockHash>, Option<u32>),
            Error,
        >((None, None)),
        (header.prev_side_hash is None) != (height == 0) ==> tip_before(header, height) is Err,
{
}

/// What trades moved in a holding is added up.
pub proof fn moved_shares_add_up(deltas: Seq<TradeShareDelta>, d: TradeShareDelta, key: ShareChangeKey)
    requires
        batched(deltas.push(d)) is Ok,
    ensures
        batched(deltas) is Ok,
        ({
            let before = batched(deltas)->Ok_0;
            let after = batched(deltas.push(d))->Ok_0;
            let was = if before.dom().contains(key) {
                before[key] as int
            } else {
                0
            };
            let own = key.address == d.address && key.market_id == d.market_id && key.outcome_index
                == d.outcome_index;
            &&& own ==> after.dom().contains(key) && after[key] == was + d.share_delta
            &&& !own ==> (after.dom().contains(key) <==> before.dom().contains(key)) && after[key]
                == before[key]
        }),
{
    assert(deltas.push(d).drop_last() =~= deltas);
}

/// Of what a trade paid out, nothing is left: neither the change of a purchase, nor the
/// proceeds of a sale and what was left of its coins. Other coins stay.
pub proof fn payments_of_trades_are_taken_back(
    ledger: LedgerView,
    trade: Trade,
    txid: [u8; 32],
    o: OutPoint,
)
    ensures
        ({
            let after = trade_coins_removed(ledger, trade, txid);
            let paid = if trade.shares > 0 {
                o == buy_change_point(trade.market_id, trade.trader, txid)
            } else {
                o == sell_payout_point(trade.market_id, trade.trader, txid) || o
                    == sell_input_change_point(trade.trader, txid)
            };
            &&& after.utxos.dom().contains(o) <==> ledger.utxos.dom().contains(o) && !paid
            &&& !paid ==> after.utxos[o] == ledger.utxos[o]
            &&& after.stxos == ledger.stxos
        }),
{
}

/// A trade that is taken back gives its market the shares back, and its trader the
/// opposite of what it moved.
pub proof fn trades_are_taken_back(
    before: Reverting,
    tx: FilledTransaction,
    figures: UndoFigures,
    height: u32,
    after: Reverting,
    k: int,
)
    requires
        data_reverted(before, tx, figures, height) == Ok::<Reverting, Error>(after),
        tx.transaction.data is Some,
        tx.transaction.data->0 is Trade,
    ensures
        ({
            let trade = tx.transaction.data->0;
            let m = trade->Trade_market_id;
            let was = before.markets.markets[m];
            let is = after.markets.markets[m];
            &&& after.delta is Some
            &&& after.delta->0.address == trade->Trade_trader
            &&& after.delta->0.market_id == m
            &&& after.delta->0.outcome_index == trade->Trade_outcome_index
            &&& after.delta->0.share_delta + trade->Trade_shares == 0
            &&& before.markets.markets.dom().contains(m)
            &&& is.shares.len() == was.shares.len()
            &&& 0 <= k < was.shares.len() ==> is.shares[k] == was.shares[k] - if k
                == trade->Trade_outcome_index {
                trade->Trade_shares as int
            } else {
                0
            }
            &&& is.liquidity_base_sats == was.liquidity_base_sats
            &&& after.decisions == before.decisions
            &&& after.voting == before.voting
        }),
{
}

/// What was added to a market is taken out of it again.
pub proof fn additions_are_taken_back(markets: MarketsView, tx: FilledTransaction, after: MarketsView)
    requires
        amplify_unmade(markets, tx) == Ok::<MarketsView, Error>(after),
    ensures
        tx.transaction.data is Some,
        tx.transaction.data->0 is AmplifyBeta,
        ({
            let m = tx.transaction.data->0->AmplifyBeta_market_id;
            let amount = tx.transaction.data->0->AmplifyBeta_amount;
            &&& markets.markets.dom().contains(m)
            &&& after.markets[m].liquidity_base_sats + amount
                == markets.markets[m].liquidity_base_sats
            &&& after.markets[m].shares == markets.markets[m].shares
            &&& after.markets[m].volumes == markets.markets[m].volumes
        }),
{
}

/// What was done after the transactions of a block is taken back: the payments to and
/// from the treasuries where there were any, and the reckonings where there were any.
pub proof fn ends_of_blocks_are_taken_back(state: State, height: u32, undone: Undone)
    requires
        end_undone(state, height) == Ok::<Undone, Error>(undone),
        !state.settlement_undo@.dom().contains(height),
    ensures
        state.consolidation_undo@.dom().contains(height) ==> {
            let held = unconsolidated(
                holdings(state.ledger@, state.markets@),
                state.consolidation_undo@[height]@,
            );
            undone.ledger == held.ledger && undone.markets.funds == held.funds
        },
        !state.consolidation_undo@.dom().contains(height) ==> undone.ledger == state.ledger@
            && undone.markets.funds == state.markets@.funds,
        undone.markets.markets == state.markets@.markets,
        undone.markets.accounts == state.markets@.accounts,
        state.consensus_undo@.dom().contains(height) ==> (undone.voting, undone.reputation)
            == reckonings_undone(state.voting@, state.reputation@, state.consensus_undo@[height]@),
        !state.consensus_undo@.dom().contains(height) ==> undone.voting == state.voting@
            && undone.reputation == state.reputation@,
{
}

/// Periods above the highest are gone, and the others stay.
pub proof fn later_periods_are_taken_back(
    periods: Map<u32, PeriodEntries>,
    highest: u32,
    period: u32,
)
    ensures
        periods_up_to(periods, highest).dom().contains(period) <==> periods.dom().contains(period)
            && period <= highest,
        period <= highest && periods.dom().contains(period) ==> periods_up_to(
            periods,
            highest,
        )[period] == periods[period],
{
}

/// Decisions are resolved in the period after theirs, in their order.
pub proof fn decisions_are_resolved_in_the_next_period(
    list: Seq<DecisionId>,
    id: DecisionId,
    period: u32,
)
    ensures
        of_period(Seq::<DecisionId>::empty(), period).len() == 0,
        of_period(list.push(id), period) == if id.0[0] % 128 + 1 == period {
            of_period(list, period).push(id)
        } else {
            of_period(list, period)
        },
{
    assert(list.push(id).drop_last() =~= list);
}

/// Each decision to be resolved is in a group of its period, and the groups are in the
/// order of the periods.
pub proof fn decisions_are_grouped_by_period(
    groups: Seq<PeriodGroup>,
    list: Seq<DecisionId>,
    i: int,
    j: int,
    k: int,
)
    requires
        is_grouped(groups, list),
        0 <= i < j < groups.len(),
        0 <= k < list.len(),
    ensures
        groups[i].0 < groups[j].0,
        groups[i].1@ == of_period(list, groups[i].0),
        exists|g: int|
            0 <= g < groups.len() && (#[trigger] groups[g]).0 == list[k].0[0] % 128 + 1,
{
    assert(has_group(groups, list[k].period() + 1));
}

/// The transaction that is taken back next is the last one that was not skipped.
pub proof fn the_last_taken_is_taken_back_first(skipped: Seq<u32>, left: nat, k: nat)
    requires
        left <= u32::MAX,
    ensures
        last_taken(skipped, left) is Some ==> last_taken(skipped, left)->0 < left
            && !skipped.contains(last_taken(skipped, left)->0 as u32),
        k < left && !skipped.contains(k as u32) ==> last_taken(skipped, left) is Some && k
            <= last_taken(skipped, left)->0,
    decreases left,
{
    if left > 0 && skipped.contains((left - 1) as u32) {
        the_last_taken_is_taken_back_first(skipped, (left - 1) as nat, k);
    }
}

/// What a block did at its start is taken back: its parent is the tip again, its
/// coinbase is gone, what trades moved goes back to their accounts, and so does
/// reputation that was transferred.
pub proof fn starts_of_blocks_are_taken_back(
    state: State,
    header: Header,
    coinbase_len: nat,
    deltas: Seq<TradeShareDelta>,
    height: u32,
    done: Finished,
)
    requires
        start_undone(state, header, coinbase_len, deltas, height) == Ok::<Finished, Error>(done),
    ensures
        done.tip == header.prev_side_hash,
        height > 0 ==> done.height == Some((height - 1) as u32),
        height == 0 ==> done.height is None,
        batched(deltas) is Ok,
        accounts_changed(state.markets@, rows_of(batched(deltas)->Ok_0), height) == Ok::<
            MarketsView,
            Error,
        >(done.markets),
        coinbase_unmade(state.ledger@, header.merkle_root, coinbase_len) == Ok::<LedgerView, Error>(
            done.ledger,
        ),
        state.reputation_transfer_undo@.dom().contains(height) ==> done.reputation
            == transfers_undone(state.reputation@, state.reputation_transfer_undo@[height]@),
        !state.reputation_transfer_undo@.dom().contains(height) ==> done.reputation
            == state.reputation@,
{
}

} // verus!
