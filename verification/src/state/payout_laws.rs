//! What holds of the coins that a block makes for traders and markets.

use vstd::prelude::*;

use crate::state::consolidation::{
    buy_change_point, buy_fees, buyers_paid, costs, funds_point, held_coin, inputs_returned,
    market_gathered, payouts, sell_fees, sell_input_change_point, sell_payout_point, sellers_paid,
    sold_in, traded_in, treasury_gathered, value_of, BlockTrades, FundsAddresses, Holdings,
    InputChange, PendingBuySettlement, PendingSellPayout,
};
use crate::state::ledger::LedgerView;
use crate::state::markets::database::{funds, FundsKey};
use crate::state::markets::MarketId;
use crate::state::Error;
use crate::types::transaction::output::{BitcoinContent, FilledContent, FilledOutput};
use crate::types::transaction::OutPoint;
use crate::types::Address;

verus! {

/// A coin of an owner holds an amount, and nothing else.
pub open spec fn is_coin_of(output: FilledOutput, address: Address, sats: int) -> bool {
    &&& output.address == address
    &&& match output.content {
        FilledContent::Bitcoin(BitcoinContent(held)) => held == sats,
        _ => false,
    }
}

/// A coin of a market holds an amount at an address, for its treasury or for the
/// fees of its author.
pub open spec fn is_market_coin_of(
    output: FilledOutput,
    address: Address,
    m: MarketId,
    sats: int,
    of_fees: bool,
) -> bool {
    &&& output.address == address
    &&& match output.content {
        FilledContent::MarketFunds { market_id, amount, is_fee } => {
            &&& market_id@ == m.0@
            &&& amount.0 == sats
            &&& is_fee == of_fees
        },
        _ => false,
    }
}

/// Each seller of a market gets a coin with what they are owed. Coins that are
/// not for sellers are as they were.
pub proof fn sellers_get_what_they_are_owed(
    ledger: LedgerView,
    sells: Seq<PendingSellPayout>,
    m: MarketId,
    i: int,
)
    requires
        0 <= i < sells.len(),
        sells[i].market_id == m,
        forall|j: int|
            i < j < sells.len() && (#[trigger] sells[j]).market_id == m ==> sell_payout_point(
                m,
                sells[j].seller_address,
                sells[j].transaction_id,
            ) != sell_payout_point(m, sells[i].seller_address, sells[i].transaction_id),
    ensures
        ({
            let point = sell_payout_point(m, sells[i].seller_address, sells[i].transaction_id);
            let after = sellers_paid(ledger, sells, m);
            &&& after.utxos.dom().contains(point)
            &&& is_coin_of(after.utxos[point], sells[i].seller_address, sells[i].payout_sats as int)
        }),
    decreases sells.len(),
{
    if i < sells.len() - 1 {
        let front = sells.drop_last();
        assert(front[i] == sells[i]);
        assert forall|j: int|
            i < j < front.len() && (#[trigger] front[j]).market_id == m implies sell_payout_point(
            m,
            front[j].seller_address,
            front[j].transaction_id,
        ) != sell_payout_point(m, front[i].seller_address, front[i].transaction_id) by {
            assert(front[j] == sells[j]);
        }
        sellers_get_what_they_are_owed(ledger, front, m, i);
        assert(sells.last() == sells[sells.len() - 1]);
    }
}

/// Each buyer of a market gets back what they put in and neither the miner, nor
/// the shares, nor the market's fee cost. A buyer who put in less than that is
/// refused.
pub proof fn buyers_get_their_change(
    ledger: LedgerView,
    buys: Seq<PendingBuySettlement>,
    m: MarketId,
    miner_fee: u64,
    after: LedgerView,
    i: int,
)
    requires
        buyers_paid(ledger, buys, m, miner_fee) == Ok::<LedgerView, Error>(after),
        0 <= i < buys.len(),
        buys[i].market_id == m,
        forall|j: int|
            i < j < buys.len() && (#[trigger] buys[j]).market_id == m ==> buy_change_point(
                m,
                buys[j].trader_address,
                buys[j].transaction_id,
            ) != buy_change_point(m, buys[i].trader_address, buys[i].transaction_id),
    ensures
        ({
            let buy = buys[i];
            let point = buy_change_point(m, buy.trader_address, buy.transaction_id);
            let change = buy.input_value_sats - (miner_fee + buy.lmsr_cost_sats
                + buy.market_fee_sats);
            &&& change >= 0
            &&& change > 0 ==> after.utxos.dom().contains(point) && is_coin_of(
                after.utxos[point],
                buy.trader_address,
                change,
            )
        }),
    decreases buys.len(),
{
    if i < buys.len() - 1 {
        let front = buys.drop_last();
        let before = buyers_paid(ledger, front, m, miner_fee)->Ok_0;
        assert(front[i] == buys[i]);
        assert forall|j: int|
            i < j < front.len() && (#[trigger] front[j]).market_id == m implies buy_change_point(
            m,
            front[j].trader_address,
            front[j].transaction_id,
        ) != buy_change_point(m, front[i].trader_address, front[i].transaction_id) by {
            assert(front[j] == buys[j]);
        }
        buyers_get_their_change(ledger, front, m, miner_fee, before, i);
        assert(buys.last() == buys[buys.len() - 1]);
    }
}

/// Each seller gets back what is left of the coins that they spent.
pub proof fn sellers_get_their_coins_back(
    ledger: LedgerView,
    changes: Seq<InputChange>,
    i: int,
)
    requires
        0 <= i < changes.len(),
        changes[i].change_sats > 0,
        forall|j: int|
            i < j < changes.len() ==> sell_input_change_point(
                (#[trigger] changes[j]).address,
                changes[j].transaction_id,
            ) != sell_input_change_point(changes[i].address, changes[i].transaction_id),
    ensures
        ({
            let point = sell_input_change_point(changes[i].address, changes[i].transaction_id);
            let after = inputs_returned(ledger, changes);
            &&& after.utxos.dom().contains(point)
            &&& is_coin_of(after.utxos[point], changes[i].address, changes[i].change_sats as int)
        }),
    decreases changes.len(),
{
    if i < changes.len() - 1 {
        let front = changes.drop_last();
        assert(front[i] == changes[i]);
        assert forall|j: int| i < j < front.len() implies sell_input_change_point(
            (#[trigger] front[j]).address,
            front[j].transaction_id,
        ) != sell_input_change_point(front[i].address, front[i].transaction_id) by {
            assert(front[j] == changes[j]);
        }
        sellers_get_their_coins_back(ledger, front, i);
        assert(changes.last() == changes[changes.len() - 1]);
    }
}

/// What buyers pay for shares goes into the treasury of the market, and what
/// sellers are owed comes out of it, their fees too: what is left is in one coin,
/// at the address of the treasury.
pub proof fn treasuries_take_and_pay(
    at: Holdings,
    addresses: Map<MarketId, FundsAddresses>,
    m: MarketId,
    t: BlockTrades,
    after: Holdings,
)
    requires
        market_gathered(at, addresses, m, t) == Ok::<Holdings, Error>(after),
        value_of(held_coin(at, m, false)) + costs(t.buys, m) > payouts(t.sells, m) + sell_fees(
            t.sells,
            m,
        ),
        !at.ledger.utxos.dom().contains(
            OutPoint::MarketFunds { market_id: m.0, block_height: t.height, is_fee: false },
        ),
    ensures
        ({
            let rest = value_of(held_coin(at, m, false)) + costs(t.buys, m) - payouts(t.sells, m)
                - sell_fees(t.sells, m);
            let key = FundsKey { market_id: m, is_fee: false };
            &&& after.funds.dom().contains(key)
            &&& after.ledger.utxos.dom().contains(after.funds[key])
            &&& is_market_coin_of(
                after.ledger.utxos[after.funds[key]],
                addresses[m].treasury,
                m,
                rest,
                false,
            )
        }),
{
    crate::state::consolidation::lemma_sell_sums(t.sells, m);
    crate::state::consolidation::lemma_buy_sums(t.buys, m);
    let key = FundsKey { market_id: m, is_fee: false };
    let mid = treasury_gathered(at, addresses[m].treasury, m, t)->Ok_0;
    assert(key == funds(m, false));
    assert(mid.funds[key] == funds_point(m, t.height, false));
    assert(funds(m, true) != key);
    assert(funds_point(m, t.height, true) != funds_point(m, t.height, false));
}

/// The fees of trades go to the author of the market, in one coin with those that
/// were there.
pub proof fn authors_get_the_fees(
    at: Holdings,
    addresses: Map<MarketId, FundsAddresses>,
    m: MarketId,
    t: BlockTrades,
    after: Holdings,
)
    requires
        market_gathered(at, addresses, m, t) == Ok::<Holdings, Error>(after),
        value_of(held_coin(at, m, true)) + buy_fees(t.buys, m) + sell_fees(t.sells, m) > 0,
    ensures
        ({
            let fees = value_of(held_coin(at, m, true)) + buy_fees(t.buys, m) + sell_fees(
                t.sells,
                m,
            );
            let key = FundsKey { market_id: m, is_fee: true };
            &&& after.funds.dom().contains(key)
            &&& after.ledger.utxos.dom().contains(after.funds[key])
            &&& is_market_coin_of(
                after.ledger.utxos[after.funds[key]],
                addresses[m].author_fee,
                m,
                fees,
                true,
            )
        }),
{
    crate::state::consolidation::lemma_sell_sums(t.sells, m);
    crate::state::consolidation::lemma_buy_sums(t.buys, m);
    assert(FundsKey { market_id: m, is_fee: true } == funds(m, true));
}

/// A market that owes its sellers more than it has is not consolidated.
pub proof fn treasuries_are_not_overdrawn(
    at: Holdings,
    addresses: Map<MarketId, FundsAddresses>,
    m: MarketId,
    t: BlockTrades,
)
    requires
        value_of(held_coin(at, m, false)) + costs(t.buys, m) < payouts(t.sells, m) + sell_fees(
            t.sells,
            m,
        ),
    ensures
        market_gathered(at, addresses, m, t) is Err,
{
}

/// What trades of a market cost, what they bring, and their fees are sums over the
/// trades of that market.
pub proof fn sums_count_each_trade_once(
    buys: Seq<PendingBuySettlement>,
    buy: PendingBuySettlement,
    sells: Seq<PendingSellPayout>,
    sell: PendingSellPayout,
    m: MarketId,
)
    ensures
        costs(Seq::empty(), m) == 0,
        buy_fees(Seq::empty(), m) == 0,
        payouts(Seq::empty(), m) == 0,
        sell_fees(Seq::empty(), m) == 0,
        buy.market_id == m ==> costs(buys.push(buy), m) == costs(buys, m) + buy.lmsr_cost_sats,
        buy.market_id == m ==> buy_fees(buys.push(buy), m) == buy_fees(buys, m)
            + buy.market_fee_sats,
        buy.market_id != m ==> costs(buys.push(buy), m) == costs(buys, m),
        buy.market_id != m ==> buy_fees(buys.push(buy), m) == buy_fees(buys, m),
        sell.market_id == m ==> payouts(sells.push(sell), m) == payouts(sells, m)
            + sell.payout_sats,
        sell.market_id == m ==> sell_fees(sells.push(sell), m) == sell_fees(sells, m)
            + sell.fee_sats,
        sell.market_id != m ==> payouts(sells.push(sell), m) == payouts(sells, m),
        sell.market_id != m ==> sell_fees(sells.push(sell), m) == sell_fees(sells, m),
{
    assert(buys.push(buy).drop_last() =~= buys);
    assert(sells.push(sell).drop_last() =~= sells);
}

/// The markets that are consolidated are those that were traded in.
pub proof fn traded_markets_are_due(
    sells: Seq<PendingSellPayout>,
    buys: Seq<PendingBuySettlement>,
    m: MarketId,
)
    ensures
        traded_in(sold_in(sells), buys).dom().contains(m) <==> (exists|i: int|
            0 <= i < sells.len() && (#[trigger] sells[i]).market_id == m) || (exists|i: int|
            0 <= i < buys.len() && (#[trigger] buys[i]).market_id == m),
    decreases sells.len() + buys.len(),
{
    if buys.len() > 0 {
        let front = buys.drop_last();
        traded_markets_are_due(sells, front, m);
        assert(buys[buys.len() - 1] == buys.last());
        if exists|i: int| 0 <= i < front.len() && (#[trigger] front[i]).market_id == m {
            let i = choose|i: int| 0 <= i < front.len() && (#[trigger] front[i]).market_id == m;
            assert(buys[i].market_id == m);
        }
        if exists|i: int| 0 <= i < buys.len() && (#[trigger] buys[i]).market_id == m {
            let i = choose|i: int| 0 <= i < buys.len() && (#[trigger] buys[i]).market_id == m;
            if i < front.len() {
                assert(front[i].market_id == m);
            }
        }
    } else if sells.len() > 0 {
        let front = sells.drop_last();
        traded_markets_are_due(front, buys, m);
        assert(sells[sells.len() - 1] == sells.last());
        if exists|i: int| 0 <= i < front.len() && (#[trigger] front[i]).market_id == m {
            let i = choose|i: int| 0 <= i < front.len() && (#[trigger] front[i]).market_id == m;
            assert(sells[i].market_id == m);
        }
        if exists|i: int| 0 <= i < sells.len() && (#[trigger] sells[i]).market_id == m {
            let i = choose|i: int| 0 <= i < sells.len() && (#[trigger] sells[i]).market_id == m;
            if i < front.len() {
                assert(front[i].market_id == m);
            }
        }
    }
}

} // verus!
