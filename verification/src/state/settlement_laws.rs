//! What holds of the settlement of markets when it is taken back.

use vstd::prelude::*;

use crate::state::consolidation::deleted_all;
use crate::state::ledger::LedgerView;
use crate::state::markets::database::{account_of, funds, MarketsView};
use crate::state::markets::types::{position, SharePayoutRecord};
use crate::state::markets::MarketId;
use crate::state::undo::{settlement_undone, shares_given_back, SettlementEntryView};
use crate::state::Error;
use crate::types::transaction::OutPoint;
use crate::types::Address;

verus! {

/// The shares that payouts redeemed of a holding.
pub open spec fn redeemed(
    payouts: Seq<SharePayoutRecord>,
    holder: Address,
    m: MarketId,
    outcome: u32,
) -> int
    decreases payouts.len(),
{
    if payouts.len() == 0 {
        0
    } else {
        let first = payouts[0];
        redeemed(payouts.skip(1), holder, m, outcome) + if first.address == holder
            && first.market_id == m && first.outcome_index == outcome {
            first.shares_redeemed as int
        } else {
            0
        }
    }
}

proof fn lemma_redeemed_last(
    payouts: Seq<SharePayoutRecord>,
    holder: Address,
    m: MarketId,
    outcome: u32,
)
    requires
        payouts.len() > 0,
    ensures
        redeemed(payouts, holder, m, outcome) == redeemed(
            payouts.drop_last(),
            holder,
            m,
            outcome,
        ) + if payouts.last().address == holder && payouts.last().market_id == m
            && payouts.last().outcome_index == outcome {
            payouts.last().shares_redeemed as int
        } else {
            0
        },
    decreases payouts.len(),
{
    if payouts.len() > 1 {
        lemma_redeemed_last(payouts.skip(1), holder, m, outcome);
        assert(payouts.skip(1).drop_last() =~= payouts.drop_last().skip(1));
        assert(payouts.skip(1).last() == payouts.last());
        assert(payouts.drop_last()[0] == payouts[0]);
    } else {
        assert(payouts.skip(1) =~= Seq::<SharePayoutRecord>::empty());
        assert(payouts.drop_last() =~= Seq::<SharePayoutRecord>::empty());
    }
}

/// Each holder gets back the shares that were redeemed, and no other holding changes.
pub proof fn holders_get_their_shares_back(
    markets: MarketsView,
    payouts: Seq<SharePayoutRecord>,
    height: u32,
    after: MarketsView,
    holder: Address,
    m: MarketId,
    outcome: u32,
)
    requires
        shares_given_back(markets, payouts, height) == Ok::<MarketsView, Error>(after),
    ensures
        account_of(after.accounts, holder).shares(position(m, outcome)) == account_of(
            markets.accounts,
            holder,
        ).shares(position(m, outcome)) + redeemed(payouts, holder, m, outcome),
        after.markets == markets.markets,
        after.funds == markets.funds,
        after.mempool_shares == markets.mempool_shares,
    decreases payouts.len(),
{
    if payouts.len() > 0 {
        let before = shares_given_back(markets, payouts.drop_last(), height)->Ok_0;
        holders_get_their_shares_back(
            markets,
            payouts.drop_last(),
            height,
            before,
            holder,
            m,
            outcome,
        );
        lemma_redeemed_last(payouts, holder, m, outcome);
        crate::state::block::trade_laws::changes_touch_one_position(
            before,
            crate::state::undo::redeemed_key(payouts.last()),
            payouts.last().shares_redeemed,
            height,
            after,
            holder,
            position(m, outcome),
        );
    }
}

proof fn lemma_deleted_all(ledger: LedgerView, points: Seq<OutPoint>, o: OutPoint)
    ensures
        deleted_all(ledger, points).utxos.dom().contains(o) <==> ledger.utxos.dom().contains(o)
            && !points.contains(o),
        !points.contains(o) ==> deleted_all(ledger, points).utxos[o] == ledger.utxos[o],
        deleted_all(ledger, points).stxos == ledger.stxos,
    decreases points.len(),
{
    if points.len() > 0 {
        let front = points.drop_last();
        lemma_deleted_all(ledger, front, o);
        assert(points[points.len() - 1] == points.last());
        if front.contains(o) {
            assert(points[front.index_of(o)] == o);
        }
        if points.contains(o) && o != points.last() {
            assert(front[points.index_of(o)] == o);
        }
    }
}

/// Taken back, a settlement leaves the market as it was, its funds where they were and
/// unspent again, and none of the coins that were paid out.
pub proof fn settlements_are_taken_back(
    ledger: LedgerView,
    markets: MarketsView,
    e: SettlementEntryView,
    height: u32,
    ledger_after: LedgerView,
    markets_after: MarketsView,
    o: OutPoint,
)
    requires
        settlement_undone(ledger, markets, e, height) == Ok::<(LedgerView, MarketsView), Error>(
            (ledger_after, markets_after),
        ),
    ensures
        markets_after.markets.dom().contains(e.market.terms.id),
        markets_after.markets[e.market.terms.id] == e.market,
        forall|other: MarketId|
            other != e.market.terms.id ==> (#[trigger] markets_after.markets.dom().contains(other)
                <==> markets.markets.dom().contains(other)) && markets_after.markets[other]
                == markets.markets[other],
        e.treasury_utxo is Some ==> {
            let key = funds(e.market.terms.id, false);
            &&& markets_after.funds.dom().contains(key)
            &&& markets_after.funds[key] == e.treasury_utxo->Some_0.0
        },
        e.fee_utxo is Some ==> {
            let key = funds(e.market.terms.id, true);
            &&& markets_after.funds.dom().contains(key)
            &&& markets_after.funds[key] == e.fee_utxo->Some_0.0
        },
        ledger_after.stxos == ledger.stxos,
        ({
            let fee = e.fee_utxo is Some && e.fee_utxo->Some_0.0 == o;
            let treasury = e.treasury_utxo is Some && e.treasury_utxo->Some_0.0 == o;
            &&& fee ==> ledger_after.utxos.dom().contains(o) && ledger_after.utxos[o]
                == e.fee_utxo->Some_0.1
            &&& treasury && !fee ==> ledger_after.utxos.dom().contains(o) && ledger_after.utxos[o]
                == e.treasury_utxo->Some_0.1
            &&& !fee && !treasury ==> {
                &&& ledger_after.utxos.dom().contains(o) <==> ledger.utxos.dom().contains(o)
                    && !e.payout_utxos.contains(o)
                &&& !e.payout_utxos.contains(o) ==> ledger_after.utxos[o] == ledger.utxos[o]
            }
        }),
{
    lemma_deleted_all(ledger, e.payout_utxos, o);
    let held = shares_given_back(markets, e.payouts, height)->Ok_0;
    holders_get_their_shares_back(
        markets,
        e.payouts,
        height,
        held,
        arbitrary(),
        arbitrary(),
        arbitrary(),
    );
}

} // verus!
