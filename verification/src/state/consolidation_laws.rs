//! What holds of the consolidation of market funds.

use vstd::prelude::*;

use crate::state::consolidation::{
    buy_fees, buyers_paid, change_of, change_points, coin, consolidated, costs, deleted,
    deleted_all, entries_reverted, entry_of, entry_reverted, fee_total, funds_point, held_coin,
    inputs_returned, lemma_buy_sums, lemma_no_sells, lemma_sell_sums, market_coin, market_gathered,
    markets_due, markets_gathered, payout_points, payouts, pointer, restored, returned_points,
    sell_gross, sellers_paid, sells_in, treasury_gathered, treasury_total, unconsolidated,
    value_of, without_coin,
};
use crate::state::consolidation::{
    BlockTrades, ConsolidationUndoView, EntryView, FundsAddresses, Holdings, InputChange,
    PendingBuySettlement, PendingSellPayout,
};
use crate::state::ledger::{
    at, delete_keeps_index, insert_keeps_index, AddressOutPoint, LedgerView,
};
use crate::state::markets::database::{funds, FundsKey};
use crate::state::markets::MarketId;
use crate::state::Error;
use crate::types::transaction::output::{FilledOutput, GetBitcoinValue};
use crate::types::transaction::OutPoint;
use crate::types::Address;

verus! {

/// `b` is `a` with coins added at some new places.
pub open spec fn grown(a: LedgerView, b: LedgerView, points: Seq<OutPoint>) -> bool {
    &&& b.stxos == a.stxos
    &&& b.index_in_step()
    &&& forall|o: OutPoint| #[trigger]
        b.utxos.dom().contains(o) <==> a.utxos.dom().contains(o) || points.contains(o)
    &&& forall|o: OutPoint|
        a.utxos.dom().contains(o) && !points.contains(o) ==> #[trigger] b.utxos[o] == a.utxos[o]
}

/// `b` is `a` without the coins at some places.
pub open spec fn shrunk(a: LedgerView, b: LedgerView, points: Seq<OutPoint>) -> bool {
    &&& b.stxos == a.stxos
    &&& b.index_in_step()
    &&& forall|o: OutPoint| #[trigger]
        b.utxos.dom().contains(o) <==> a.utxos.dom().contains(o) && !points.contains(o)
    &&& forall|o: OutPoint| #[trigger] b.utxos.dom().contains(o) ==> b.utxos[o] == a.utxos[o]
}

/// No coin is at any of these places.
pub open spec fn all_free(ledger: LedgerView, points: Seq<OutPoint>) -> bool {
    forall|i: int| 0 <= i < points.len() ==> !ledger.utxos.dom().contains(#[trigger] points[i])
}

/// The index follows from the coins.
proof fn lemma_same_ledger(a: LedgerView, b: LedgerView)
    requires
        a.index_in_step(),
        b.index_in_step(),
        a.stxos == b.stxos,
        a.utxos == b.utxos,
    ensures
        a == b,
{
    assert forall|k: AddressOutPoint|
        a.utxos_by_address.dom().contains(k) <==> b.utxos_by_address.dom().contains(k) by {
        assert(k == at(k.address, k.outpoint));
        assert(a.utxos_by_address.dom().contains(at(k.address, k.outpoint)) <==> {
            &&& a.utxos.dom().contains(k.outpoint)
            &&& a.utxos[k.outpoint].address == k.address
        });
        assert(b.utxos_by_address.dom().contains(at(k.address, k.outpoint)) <==> {
            &&& b.utxos.dom().contains(k.outpoint)
            &&& b.utxos[k.outpoint].address == k.address
        });
    }
    assert(a.utxos_by_address =~= b.utxos_by_address);
}

proof fn lemma_grown_none(a: LedgerView)
    requires
        a.index_in_step(),
    ensures
        grown(a, a, Seq::empty()),
        shrunk(a, a, Seq::empty()),
{
}

proof fn lemma_grown_more(
    a: LedgerView,
    b: LedgerView,
    points: Seq<OutPoint>,
    o: OutPoint,
    output: FilledOutput,
)
    requires
        grown(a, b, points),
        !a.utxos.dom().contains(o),
        !points.contains(o),
    ensures
        grown(a, b.insert(o, output), points.push(o)),
{
    let c = b.insert(o, output);
    let more = points.push(o);
    assert(!b.utxos.dom().contains(o));
    insert_keeps_index(b, o, output);
    assert(more[points.len() as int] == o);
    assert forall|x: OutPoint| more.contains(x) <==> points.contains(x) || x == o by {
        if points.contains(x) {
            let i = points.index_of(x);
            assert(more[i] == x);
        }
        if more.contains(x) && x != o {
            let i = more.index_of(x);
            assert(points[i] == x);
        }
    }
}

proof fn lemma_shrunk_more(a: LedgerView, b: LedgerView, points: Seq<OutPoint>, o: OutPoint)
    requires
        shrunk(a, b, points),
    ensures
        shrunk(a, b.delete(o), points.push(o)),
{
    let more = points.push(o);
    delete_keeps_index(b, o);
    assert(more[points.len() as int] == o);
    assert forall|x: OutPoint| more.contains(x) <==> points.contains(x) || x == o by {
        if points.contains(x) {
            let i = points.index_of(x);
            assert(more[i] == x);
        }
        if more.contains(x) && x != o {
            let i = more.index_of(x);
            assert(points[i] == x);
        }
    }
}

proof fn lemma_deleted_all(a: LedgerView, points: Seq<OutPoint>)
    requires
        a.index_in_step(),
    ensures
        shrunk(a, deleted_all(a, points), points),
    decreases points.len(),
{
    if points.len() == 0 {
        assert(points =~= Seq::empty());
        lemma_grown_none(a);
    } else {
        lemma_deleted_all(a, points.drop_last());
        lemma_shrunk_more(
            a,
            deleted_all(a, points.drop_last()),
            points.drop_last(),
            points.last(),
        );
        assert(points.drop_last().push(points.last()) =~= points);
    }
}

proof fn lemma_grown_twice(
    a: LedgerView,
    b: LedgerView,
    c: LedgerView,
    p: Seq<OutPoint>,
    q: Seq<OutPoint>,
)
    requires
        grown(a, b, p),
        grown(b, c, q),
    ensures
        grown(a, c, p + q),
{
    assert forall|x: OutPoint| (p + q).contains(x) <==> p.contains(x) || q.contains(x) by {
        if p.contains(x) {
            assert((p + q)[p.index_of(x)] == x);
        }
        if q.contains(x) {
            assert((p + q)[p.len() + q.index_of(x)] == x);
        }
        if (p + q).contains(x) {
            let i = (p + q).index_of(x);
            if i < p.len() {
                assert(p[i] == x);
            } else {
                assert(q[i - p.len()] == x);
            }
        }
    }
    assert forall|o: OutPoint| a.utxos.dom().contains(o) && !(p + q).contains(o) implies #[trigger]
        c.utxos[o] == a.utxos[o] by {
        assert(b.utxos.dom().contains(o));
        assert(b.utxos[o] == a.utxos[o]);
    }
}

proof fn lemma_shrunk_twice(
    a: LedgerView,
    b: LedgerView,
    c: LedgerView,
    p: Seq<OutPoint>,
    q: Seq<OutPoint>,
)
    requires
        shrunk(a, b, p),
        shrunk(b, c, q),
    ensures
        shrunk(a, c, p + q),
{
    assert forall|x: OutPoint| (p + q).contains(x) <==> p.contains(x) || q.contains(x) by {
        if p.contains(x) {
            assert((p + q)[p.index_of(x)] == x);
        }
        if q.contains(x) {
            assert((p + q)[p.len() + q.index_of(x)] == x);
        }
        if (p + q).contains(x) {
            let i = (p + q).index_of(x);
            if i < p.len() {
                assert(p[i] == x);
            } else {
                assert(q[i - p.len()] == x);
            }
        }
    }
    assert forall|o: OutPoint| #[trigger] c.utxos.dom().contains(o) implies c.utxos[o]
        == a.utxos[o] by {
        assert(b.utxos.dom().contains(o));
    }
}

proof fn lemma_distinct_front(points: Seq<OutPoint>)
    requires
        points.no_duplicates(),
        points.len() > 0,
    ensures
        points.drop_last().no_duplicates(),
        !points.drop_last().contains(points.last()),
        points.drop_last().push(points.last()) == points,
{
    assert(points.drop_last().push(points.last()) =~= points);
    if points.drop_last().contains(points.last()) {
        let i = points.drop_last().index_of(points.last());
        assert(points[i] == points[points.len() - 1]);
    }
}

proof fn lemma_sellers_grow(ledger: LedgerView, sells: Seq<PendingSellPayout>, m: MarketId)
    requires
        ledger.index_in_step(),
        payout_points(sells, m).no_duplicates(),
        all_free(ledger, payout_points(sells, m)),
    ensures
        grown(ledger, sellers_paid(ledger, sells, m), payout_points(sells, m)),
    decreases sells.len(),
{
    if sells.len() == 0 {
        lemma_grown_none(ledger);
    } else {
        let points = payout_points(sells, m);
        let front = payout_points(sells.drop_last(), m);
        if sells.last().market_id == m {
            assert(points.drop_last() =~= front);
            lemma_distinct_front(points);
            assert forall|i: int| 0 <= i < front.len() implies !ledger.utxos.dom().contains(
                #[trigger] front[i],
            ) by {
                assert(points[i] == front[i]);
            }
            assert(points[points.len() - 1] == points.last());
            lemma_sellers_grow(ledger, sells.drop_last(), m);
            let sell = sells.last();
            lemma_grown_more(
                ledger,
                sellers_paid(ledger, sells.drop_last(), m),
                front,
                points.last(),
                coin(sell.seller_address, sell.payout_sats),
            );
        } else {
            lemma_sellers_grow(ledger, sells.drop_last(), m);
        }
    }
}

proof fn lemma_buyers_grow(
    ledger: LedgerView,
    buys: Seq<PendingBuySettlement>,
    m: MarketId,
    miner_fee: u64,
)
    requires
        ledger.index_in_step(),
        buyers_paid(ledger, buys, m, miner_fee) is Ok,
        change_points(buys, m, miner_fee).no_duplicates(),
        all_free(ledger, change_points(buys, m, miner_fee)),
    ensures
        grown(
            ledger,
            buyers_paid(ledger, buys, m, miner_fee)->Ok_0,
            change_points(buys, m, miner_fee),
        ),
    decreases buys.len(),
{
    if buys.len() == 0 {
        lemma_grown_none(ledger);
    } else {
        let points = change_points(buys, m, miner_fee);
        let front = change_points(buys.drop_last(), m, miner_fee);
        let buy = buys.last();
        if buy.market_id == m && change_of(buy, miner_fee) > 0 {
            assert(points.drop_last() =~= front);
            lemma_distinct_front(points);
            assert forall|i: int| 0 <= i < front.len() implies !ledger.utxos.dom().contains(
                #[trigger] front[i],
            ) by {
                assert(points[i] == front[i]);
            }
            assert(points[points.len() - 1] == points.last());
            lemma_buyers_grow(ledger, buys.drop_last(), m, miner_fee);
            lemma_grown_more(
                ledger,
                buyers_paid(ledger, buys.drop_last(), m, miner_fee)->Ok_0,
                front,
                points.last(),
                coin(
                    buy.trader_address,
                    change_of(buy, miner_fee) as u64,
                ),
            );
        } else {
            lemma_buyers_grow(ledger, buys.drop_last(), m, miner_fee);
        }
    }
}

proof fn lemma_inputs_grow(ledger: LedgerView, changes: Seq<InputChange>)
    requires
        ledger.index_in_step(),
        returned_points(changes).no_duplicates(),
        all_free(ledger, returned_points(changes)),
    ensures
        grown(ledger, inputs_returned(ledger, changes), returned_points(changes)),
    decreases changes.len(),
{
    if changes.len() == 0 {
        lemma_grown_none(ledger);
    } else {
        let points = returned_points(changes);
        let front = returned_points(changes.drop_last());
        let change = changes.last();
        if change.change_sats > 0 {
            assert(points.drop_last() =~= front);
            lemma_distinct_front(points);
            assert forall|i: int| 0 <= i < front.len() implies !ledger.utxos.dom().contains(
                #[trigger] front[i],
            ) by {
                assert(points[i] == front[i]);
            }
            assert(points[points.len() - 1] == points.last());
            lemma_inputs_grow(ledger, changes.drop_last());
            lemma_grown_more(
                ledger,
                inputs_returned(ledger, changes.drop_last()),
                front,
                points.last(),
                coin(change.address, change.change_sats),
            );
        } else {
            lemma_inputs_grow(ledger, changes.drop_last());
        }
    }
}

pub open spec fn listed(point: Option<OutPoint>) -> Seq<OutPoint> {
    match point {
        Some(point) => seq![point],
        None => Seq::empty(),
    }
}

/// The coins that the consolidation of a market makes.
pub open spec fn created(e: EntryView) -> Seq<OutPoint> {
    e.sell_payout_utxos + e.buy_change_utxos + listed(e.new_treasury_utxo) + listed(e.new_fee_utxo)
}

proof fn lemma_concat(a: Seq<OutPoint>, b: Seq<OutPoint>)
    ensures
        forall|x: OutPoint| #[trigger] (a + b).contains(x) <==> a.contains(x) || b.contains(x),
        (a + b).no_duplicates() ==> a.no_duplicates() && b.no_duplicates() && forall|x: OutPoint|
            #[trigger] a.contains(x) ==> !b.contains(x),
{
    assert forall|x: OutPoint| #[trigger] (a + b).contains(x) <==> a.contains(x) || b.contains(
        x,
    ) by {
        if a.contains(x) {
            assert((a + b)[a.index_of(x)] == x);
        }
        if b.contains(x) {
            assert((a + b)[a.len() + b.index_of(x)] == x);
        }
        if (a + b).contains(x) {
            let i = (a + b).index_of(x);
            if i < a.len() {
                assert(a[i] == x);
            } else {
                assert(b[i - a.len()] == x);
            }
        }
    }
    if (a + b).no_duplicates() {
        assert forall|i: int, j: int| 0 <= i < a.len() && 0 <= j < a.len() && i != j implies a[i]
            != a[j] by {
            assert((a + b)[i] == a[i] && (a + b)[j] == a[j]);
        }
        assert forall|i: int, j: int| 0 <= i < b.len() && 0 <= j < b.len() && i != j implies b[i]
            != b[j] by {
            assert((a + b)[a.len() + i] == b[i] && (a + b)[a.len() + j] == b[j]);
        }
        assert forall|x: OutPoint| #[trigger] a.contains(x) implies !b.contains(x) by {
            if b.contains(x) {
                assert((a + b)[a.index_of(x)] == x);
                assert((a + b)[a.len() + b.index_of(x)] == x);
            }
        }
    }
}

proof fn lemma_listed(point: Option<OutPoint>)
    ensures
        forall|x: OutPoint| #[trigger] listed(point).contains(x) <==> point == Some(x),
        listed(point).no_duplicates(),
{
    assert forall|x: OutPoint| #[trigger] listed(point).contains(x) <==> point == Some(x) by {
        if point == Some(x) {
            assert(listed(point)[0] == x);
        }
    }
}

/// What the four parts of a list of created coins have to do with it.
proof fn lemma_created_parts(e: EntryView)
    ensures
        forall|x: OutPoint| #[trigger]
            created(e).contains(x) <==> e.sell_payout_utxos.contains(x)
                || e.buy_change_utxos.contains(x) || e.new_treasury_utxo == Some(x)
                || e.new_fee_utxo == Some(x),
        created(e).no_duplicates() ==> {
            &&& e.sell_payout_utxos.no_duplicates()
            &&& e.buy_change_utxos.no_duplicates()
            &&& forall|x: OutPoint| #[trigger]
                e.sell_payout_utxos.contains(x) ==> !e.buy_change_utxos.contains(x)
                    && e.new_treasury_utxo != Some(x) && e.new_fee_utxo != Some(x)
            &&& forall|x: OutPoint| #[trigger]
                e.buy_change_utxos.contains(x) ==> e.new_treasury_utxo != Some(x) && e.new_fee_utxo
                    != Some(x)
            &&& e.new_treasury_utxo is Some ==> e.new_treasury_utxo != e.new_fee_utxo
        },
{
    let p = e.sell_payout_utxos;
    let q = e.buy_change_utxos;
    lemma_listed(e.new_treasury_utxo);
    lemma_listed(e.new_fee_utxo);
    lemma_concat(p, q);
    lemma_concat(p + q, listed(e.new_treasury_utxo));
    lemma_concat(p + q + listed(e.new_treasury_utxo), listed(e.new_fee_utxo));
    if created(e).no_duplicates() {
        assert((p + q + listed(e.new_treasury_utxo)).no_duplicates());
        assert((p + q).no_duplicates());
        assert forall|x: OutPoint| #[trigger] p.contains(x) implies !q.contains(x)
            && e.new_treasury_utxo != Some(x) && e.new_fee_utxo != Some(x) by {
            assert((p + q).contains(x));
            assert((p + q + listed(e.new_treasury_utxo)).contains(x));
            assert(!listed(e.new_treasury_utxo).contains(x));
            assert(!listed(e.new_fee_utxo).contains(x));
        }
        assert forall|x: OutPoint| #[trigger] q.contains(x) implies e.new_treasury_utxo != Some(x)
            && e.new_fee_utxo != Some(x) by {
            assert((p + q).contains(x));
            assert((p + q + listed(e.new_treasury_utxo)).contains(x));
            assert(!listed(e.new_treasury_utxo).contains(x));
            assert(!listed(e.new_fee_utxo).contains(x));
        }
        if e.new_treasury_utxo is Some {
            let x = e.new_treasury_utxo->Some_0;
            assert(listed(e.new_treasury_utxo).contains(x));
            assert((p + q + listed(e.new_treasury_utxo)).contains(x));
            assert(!listed(e.new_fee_utxo).contains(x));
        }
    }
}

pub open spec fn is_at(coin: Option<(OutPoint, FilledOutput)>, o: OutPoint) -> bool {
    coin is Some && coin->Some_0.0 == o
}

/// `b` is `a` with coins added at some places, and at most the two old coins
/// removed.
spec fn moved(a: LedgerView, b: LedgerView, e: EntryView) -> bool {
    &&& b.stxos == a.stxos
    &&& b.index_in_step()
    &&& forall|o: OutPoint| #[trigger]
        b.utxos.dom().contains(o) ==> created(e).contains(o) || (a.utxos.dom().contains(o)
            && b.utxos[o] == a.utxos[o])
    &&& forall|o: OutPoint| #[trigger]
        a.utxos.dom().contains(o) && !is_at(e.old_treasury_utxo, o) && !is_at(e.old_fee_utxo, o)
            ==> b.utxos.dom().contains(o) && b.utxos[o] == a.utxos[o]
}

/// The treasury and the traders of a market: what is added and removed.
proof fn lemma_treasury_moves(before: Holdings, address: Address, m: MarketId, t: BlockTrades)
    requires
        before.ledger.index_in_step(),
        treasury_gathered(before, address, m, t) is Ok,
        created(entry_of(before, m, t)).no_duplicates(),
        all_free(before.ledger, created(entry_of(before, m, t))),
    ensures
        ({
            let after = treasury_gathered(
                before,
                address,
                m,
                t,
            )->Ok_0;
            let e = entry_of(before, m, t);
            &&& moved(before.ledger, after.ledger, EntryView { new_fee_utxo: None, ..e })
            &&& e.new_treasury_utxo is Some ==> {
                &&& after.ledger.utxos.dom().contains(e.new_treasury_utxo->Some_0)
                &&& after.ledger.utxos[e.new_treasury_utxo->Some_0] == market_coin(
                    address,
                    m,
                    (treasury_total(before, m, t) - sell_gross(m, t)) as u64,
                    false,
                )
            }
        }),
{
    let e = entry_of(before, m, t);
    let e0 = EntryView { new_fee_utxo: None, ..e };
    let total = treasury_total(before, m, t);
    lemma_buy_sums(t.buys, m);
    lemma_sell_sums(t.sells, m);
    lemma_created_parts(e);
    lemma_created_parts(e0);
    assert forall|o: OutPoint| #[trigger] created(e).contains(o) implies !before.ledger
        .utxos.dom().contains(o) by {
        assert(created(e)[created(e).index_of(o)] == o);
    }
    if total == 0 && !sells_in(t.sells, m) {
        lemma_no_sells(t.sells, m);
    } else {
        lemma_no_sells(t.sells, m);
        let old = held_coin(before, m, false);
        let l0 = without_coin(before, m, false, old).ledger;
        if old is Some {
            delete_keeps_index(before.ledger, old->Some_0.0);
        }
        let p = e.sell_payout_utxos;
        let q = change_points(t.buys, m, t.miner_fee);
        if total == 0 {
            assert(sells_in(t.sells, m));
        }
        assert(e.buy_change_utxos == q);
        assert forall|i: int| 0 <= i < p.len() implies !l0.utxos.dom().contains(
            #[trigger] p[i],
        ) by {
            assert(p.contains(p[i]));
            assert(created(e).contains(p[i]));
        }
        lemma_sellers_grow(l0, t.sells, m);
        let l1 = sellers_paid(l0, t.sells, m);
        assert forall|i: int| 0 <= i < q.len() implies !l1.utxos.dom().contains(
            #[trigger] q[i],
        ) by {
            assert(q.contains(q[i]));
            assert(created(e).contains(q[i]));
        }
        lemma_buyers_grow(l1, t.buys, m, t.miner_fee);
        let l2 = buyers_paid(l1, t.buys, m, t.miner_fee)->Ok_0;
        lemma_grown_twice(l0, l1, l2, p, q);
        lemma_concat(p, q);
        let rest = total - sell_gross(m, t);
        if rest > 0 {
            let o = funds_point(m, t.height, false);
            assert(created(e).contains(o));
            assert(!p.contains(o) && !q.contains(o));
            lemma_grown_more(l0, l2, p + q, o, market_coin(address, m, rest as u64, false));
            let l3 = l2.insert(o, market_coin(address, m, rest as u64, false));
            assert forall|x: OutPoint| (p + q).push(o).contains(x) <==> created(e0).contains(x) by {
                lemma_concat(p + q, seq![o]);
                assert((p + q).push(o) =~= (p + q) + seq![o]);
                assert(seq![o].contains(x) <==> x == o) by {
                    assert(seq![o][0] == o);
                }
            }
            assert forall|x: OutPoint| #[trigger] l3.utxos.dom().contains(x) implies created(
                e0,
            ).contains(x) || (before.ledger.utxos.dom().contains(x) && l3.utxos[x]
                == before.ledger.utxos[x]) by {
                if !created(e0).contains(x) {
                    assert(l0.utxos.dom().contains(x));
                    assert(l3.utxos[x] == l0.utxos[x]);
                }
            }
            assert forall|x: OutPoint| #[trigger]
                before.ledger.utxos.dom().contains(x) && !is_at(e0.old_treasury_utxo, x) && !is_at(
                    e0.old_fee_utxo,
                    x,
                ) implies l3.utxos.dom().contains(x) && l3.utxos[x] == before.ledger.utxos[x] by {
                assert(l0.utxos.dom().contains(x));
                assert(!created(e).contains(x));
                assert(l3.utxos[x] == l0.utxos[x]);
            }
            assert(moved(before.ledger, l3, e0));
        } else {
            assert forall|x: OutPoint| (p + q).contains(x) <==> created(e0).contains(x) by {}
            assert forall|x: OutPoint| #[trigger] l2.utxos.dom().contains(x) implies created(
                e0,
            ).contains(x) || (before.ledger.utxos.dom().contains(x) && l2.utxos[x]
                == before.ledger.utxos[x]) by {
                if !created(e0).contains(x) {
                    assert(l0.utxos.dom().contains(x));
                    assert(l2.utxos[x] == l0.utxos[x]);
                }
            }
            assert forall|x: OutPoint| #[trigger]
                before.ledger.utxos.dom().contains(x) && !is_at(e0.old_treasury_utxo, x) && !is_at(
                    e0.old_fee_utxo,
                    x,
                ) implies l2.utxos.dom().contains(x) && l2.utxos[x] == before.ledger.utxos[x] by {
                assert(l0.utxos.dom().contains(x));
                assert(!created(e).contains(x));
                assert(l2.utxos[x] == l0.utxos[x]);
            }
            assert(moved(before.ledger, l2, e0));
        }
    }
}

/// The funds of a market: what is added and removed.
proof fn lemma_market_moves(
    before: Holdings,
    addresses: Map<MarketId, FundsAddresses>,
    m: MarketId,
    t: BlockTrades,
)
    requires
        before.ledger.index_in_step(),
        market_gathered(before, addresses, m, t) is Ok,
        created(entry_of(before, m, t)).no_duplicates(),
        all_free(before.ledger, created(entry_of(before, m, t))),
    ensures
        ({
            let after = market_gathered(before, addresses, m, t)->Ok_0;
            let e = entry_of(before, m, t);
            &&& moved(before.ledger, after.ledger, e)
            &&& forall|k: FundsKey|
                k != funds(m, false) && k != funds(m, true) ==> (#[trigger]
                after.funds.dom().contains(k) <==> before.funds.dom().contains(k))
            &&& forall|k: FundsKey|
                k != funds(m, false) && k != funds(m, true) ==> #[trigger] after.funds[k]
                    == before.funds[k]
            &&& e.new_treasury_utxo is Some ==> after.ledger.utxos.dom().contains(
                e.new_treasury_utxo->Some_0,
            ) && after.ledger.utxos[e.new_treasury_utxo->Some_0] == market_coin(
                addresses[m].treasury,
                m,
                (treasury_total(before, m, t) - sell_gross(m, t)) as u64,
                false,
            )
        }),
{
    let e = entry_of(before, m, t);
    let e0 = EntryView { new_fee_utxo: None, ..e };
    let address = addresses[m].treasury;
    lemma_created_parts(e);
    lemma_created_parts(e0);
    assert forall|o: OutPoint| #[trigger] created(e).contains(o) implies !before.ledger
        .utxos.dom().contains(o) by {
        assert(created(e)[created(e).index_of(o)] == o);
    }
    lemma_buy_sums(t.buys, m);
    lemma_sell_sums(t.sells, m);
    lemma_treasury_moves(before, address, m, t);
    let mid = treasury_gathered(before, address, m, t)->Ok_0;
    let fees = fee_total(before, m, t);
    if fees == 0 {
        assert(e0 =~= e);
    } else {
        let old = held_coin(before, m, true);
        let l4 = without_coin(mid, m, true, old).ledger;
        if old is Some {
            delete_keeps_index(mid.ledger, old->Some_0.0);
        }
        let o = funds_point(m, t.height, true);
        assert(created(e).contains(o));
        assert(!created(e0).contains(o));
        assert(!mid.ledger.utxos.dom().contains(o));
        let output = market_coin(addresses[m].author_fee, m, fees as u64, true);
        insert_keeps_index(l4, o, output);
        let l5 = l4.insert(o, output);
        assert forall|x: OutPoint| #[trigger] l5.utxos.dom().contains(x) implies created(
            e,
        ).contains(x) || (before.ledger.utxos.dom().contains(x) && l5.utxos[x]
            == before.ledger.utxos[x]) by {
            if x != o {
                assert(mid.ledger.utxos.dom().contains(x));
            }
        }
        assert forall|x: OutPoint| #[trigger]
            before.ledger.utxos.dom().contains(x) && !is_at(e.old_treasury_utxo, x) && !is_at(
                e.old_fee_utxo,
                x,
            ) implies l5.utxos.dom().contains(x) && l5.utxos[x] == before.ledger.utxos[x] by {
            assert(mid.ledger.utxos.dom().contains(x));
        }
        assert(moved(before.ledger, l5, e));
        if e.new_treasury_utxo is Some {
            let x = e.new_treasury_utxo->Some_0;
            assert(created(e).contains(x));
            assert(!before.ledger.utxos.dom().contains(x));
        }
    }
}

proof fn lemma_deleted(a: LedgerView, point: Option<OutPoint>)
    ensures
        deleted(a, point) == deleted_all(a, listed(point)),
{
    match point {
        Some(o) => {
            assert(listed(point).drop_last() =~= Seq::empty());
            assert(deleted_all(a, Seq::empty()) == a);
            assert(listed(point).last() == o);
        },
        None => {},
    }
}

/// Removing what a consolidation made leaves what was there, but for the old
/// coins.
proof fn lemma_created_removed(a: LedgerView, e: EntryView)
    requires
        a.index_in_step(),
    ensures
        ({
            let l1 = deleted(deleted(a, e.new_treasury_utxo), e.new_fee_utxo);
            let l2 = deleted_all(deleted_all(l1, e.sell_payout_utxos), e.buy_change_utxos);
            shrunk(a, l2, created(e))
        }),
{
    let nt = listed(e.new_treasury_utxo);
    let nf = listed(e.new_fee_utxo);
    let p = e.sell_payout_utxos;
    let q = e.buy_change_utxos;
    lemma_deleted(a, e.new_treasury_utxo);
    let a1 = deleted(a, e.new_treasury_utxo);
    lemma_deleted_all(a, nt);
    lemma_deleted(a1, e.new_fee_utxo);
    lemma_deleted_all(a1, nf);
    let l1 = deleted(a1, e.new_fee_utxo);
    lemma_shrunk_twice(a, a1, l1, nt, nf);
    lemma_deleted_all(l1, p);
    let a2 = deleted_all(l1, p);
    lemma_shrunk_twice(a, l1, a2, nt + nf, p);
    lemma_deleted_all(a2, q);
    let l2 = deleted_all(a2, q);
    lemma_shrunk_twice(a, a2, l2, nt + nf + p, q);
    lemma_created_parts(e);
    lemma_listed(e.new_treasury_utxo);
    lemma_listed(e.new_fee_utxo);
    lemma_concat(nt, nf);
    lemma_concat(nt + nf, p);
    lemma_concat(nt + nf + p, q);
    assert forall|x: OutPoint| (nt + nf + p + q).contains(x) <==> created(e).contains(x) by {}
    assert(shrunk(a, l2, created(e)));
}

/// Undoing the consolidation of a market gives back the ledger, and where the
/// funds of markets were, when the coins that it made were new.
pub proof fn reverting_undoes_gathering(
    before: Holdings,
    addresses: Map<MarketId, FundsAddresses>,
    m: MarketId,
    t: BlockTrades,
)
    requires
        before.ledger.index_in_step(),
        market_gathered(before, addresses, m, t) is Ok,
        created(entry_of(before, m, t)).no_duplicates(),
        all_free(before.ledger, created(entry_of(before, m, t))),
    ensures
        entry_reverted(market_gathered(before, addresses, m, t)->Ok_0, entry_of(before, m, t))
            == before,
{
    let e = entry_of(before, m, t);
    let after = market_gathered(before, addresses, m, t)->Ok_0;
    lemma_market_moves(before, addresses, m, t);
    lemma_created_removed(after.ledger, e);
    let l1 = deleted(deleted(after.ledger, e.new_treasury_utxo), e.new_fee_utxo);
    let l2 = deleted_all(deleted_all(l1, e.sell_payout_utxos), e.buy_change_utxos);
    assert forall|o: OutPoint| #[trigger] created(e).contains(o) implies !before.ledger
        .utxos.dom().contains(o) by {
        assert(created(e)[created(e).index_of(o)] == o);
    }
    let l3 = restored(l2, e.old_treasury_utxo);
    let l4 = restored(l3, e.old_fee_utxo);
    if e.old_treasury_utxo is Some {
        let (o, output) = e.old_treasury_utxo->Some_0;
        if l2.utxos.dom().contains(o) {
            assert(after.ledger.utxos.dom().contains(o));
        }
        insert_keeps_index(l2, o, output);
    }
    if e.old_fee_utxo is Some {
        let (o, output) = e.old_fee_utxo->Some_0;
        if l3.utxos.dom().contains(o) {
            if l2.utxos.dom().contains(o) {
                assert(after.ledger.utxos.dom().contains(o));
            }
        }
        insert_keeps_index(l3, o, output);
    }
    assert forall|o: OutPoint| l4.utxos.dom().contains(o) <==> before.ledger.utxos.dom().contains(
        o,
    ) by {
        if l2.utxos.dom().contains(o) {
            assert(after.ledger.utxos.dom().contains(o));
        }
        if before.ledger.utxos.dom().contains(o) && !is_at(e.old_treasury_utxo, o) && !is_at(
            e.old_fee_utxo,
            o,
        ) {
            assert(after.ledger.utxos.dom().contains(o));
            assert(l2.utxos.dom().contains(o));
        }
    }
    assert forall|o: OutPoint| l4.utxos.dom().contains(o) implies #[trigger] l4.utxos[o]
        == before.ledger.utxos[o] by {
        if l2.utxos.dom().contains(o) {
            assert(after.ledger.utxos.dom().contains(o));
        }
    }
    assert(l4.utxos =~= before.ledger.utxos);
    lemma_same_ledger(l4, before.ledger);
    assert(entry_reverted(after, e).funds =~= before.funds);
}

/// The coins that the consolidation of some markets makes.
pub open spec fn all_created(entries: Seq<EntryView>) -> Seq<OutPoint>
    decreases entries.len(),
{
    if entries.len() == 0 {
        Seq::empty()
    } else {
        all_created(entries.drop_last()) + created(entries.last())
    }
}

/// A coin that is there after the consolidation of some markets was there
/// before, or was made by it; and undoing it gives back what was there.
proof fn lemma_markets_reverted(
    before: Holdings,
    addresses: Map<MarketId, FundsAddresses>,
    due: Seq<(MarketId, ())>,
    t: BlockTrades,
)
    requires
        before.ledger.index_in_step(),
        markets_gathered(before, addresses, due, t) is Ok,
        all_created(markets_gathered(before, addresses, due, t)->Ok_0.1).no_duplicates(),
        all_free(before.ledger, all_created(markets_gathered(before, addresses, due, t)->Ok_0.1)),
    ensures
        ({
            let (after, entries) = markets_gathered(before, addresses, due, t)->Ok_0;
            &&& after.ledger.index_in_step()
            &&& after.ledger.stxos == before.ledger.stxos
            &&& forall|o: OutPoint| #[trigger]
                after.ledger.utxos.dom().contains(o) ==> before.ledger.utxos.dom().contains(o)
                    || all_created(entries).contains(o)
            &&& entries_reverted(after, entries) == before
        }),
    decreases due.len(),
{
    if due.len() > 0 {
        let (after, entries) = markets_gathered(before, addresses, due, t)->Ok_0;
        let (mid, front) = markets_gathered(before, addresses, due.drop_last(), t)->Ok_0;
        let m = due.last().0;
        let e = entry_of(mid, m, t);
        assert(entries.drop_last() =~= front);
        assert(entries.last() == e);
        let a = all_created(front);
        let b = created(e);
        assert(all_created(entries) == a + b);
        lemma_concat(a, b);
        assert forall|i: int| 0 <= i < a.len() implies !before.ledger.utxos.dom().contains(
            #[trigger] a[i],
        ) by {
            assert((a + b)[i] == a[i]);
        }
        lemma_markets_reverted(before, addresses, due.drop_last(), t);
        assert forall|i: int| 0 <= i < b.len() implies !mid.ledger.utxos.dom().contains(
            #[trigger] b[i],
        ) by {
            assert((a + b)[a.len() + i] == b[i]);
            assert(b.contains(b[i]));
        }
        reverting_undoes_gathering(mid, addresses, m, t);
        lemma_market_moves(mid, addresses, m, t);
        assert forall|o: OutPoint| #[trigger] after.ledger.utxos.dom().contains(o) implies before
            .ledger.utxos.dom().contains(o) || all_created(entries).contains(o) by {
            if !b.contains(o) {
                assert(mid.ledger.utxos.dom().contains(o));
            }
        }
    }
}

/// Two ledgers agree but for some places.
spec fn agree_but(a: LedgerView, b: LedgerView, points: Seq<OutPoint>) -> bool {
    &&& a.stxos == b.stxos
    &&& forall|o: OutPoint|
        !points.contains(o) ==> (#[trigger] a.utxos.dom().contains(o)
            <==> b.utxos.dom().contains(o))
    &&& forall|o: OutPoint|
        !points.contains(o) && a.utxos.dom().contains(o) ==> #[trigger] a.utxos[o] == b.utxos[o]
}

proof fn lemma_delete_agrees(
    a: LedgerView,
    b: LedgerView,
    points: Seq<OutPoint>,
    gone: Seq<OutPoint>,
)
    requires
        agree_but(a, b, points),
    ensures
        agree_but(deleted_all(a, gone), deleted_all(b, gone), points),
    decreases gone.len(),
{
    if gone.len() > 0 {
        lemma_delete_agrees(a, b, points, gone.drop_last());
    }
}

proof fn lemma_entry_agrees(a: Holdings, b: Holdings, points: Seq<OutPoint>, e: EntryView)
    requires
        agree_but(a.ledger, b.ledger, points),
        a.funds == b.funds,
        a.ledger.index_in_step(),
        forall|o: OutPoint| #[trigger] created(e).contains(o) ==> !points.contains(o),
        is_kept(a.ledger, e),
    ensures
        agree_but(entry_reverted(a, e).ledger, entry_reverted(b, e).ledger, points),
        entry_reverted(a, e).funds == entry_reverted(b, e).funds,
        entry_reverted(a, e).ledger.index_in_step(),
{
    lemma_deleted(a.ledger, e.new_treasury_utxo);
    lemma_deleted(b.ledger, e.new_treasury_utxo);
    let a1 = deleted(a.ledger, e.new_treasury_utxo);
    let b1 = deleted(b.ledger, e.new_treasury_utxo);
    lemma_delete_agrees(a.ledger, b.ledger, points, listed(e.new_treasury_utxo));
    lemma_deleted(a1, e.new_fee_utxo);
    lemma_deleted(b1, e.new_fee_utxo);
    lemma_delete_agrees(a1, b1, points, listed(e.new_fee_utxo));
    let a2 = deleted(a1, e.new_fee_utxo);
    let b2 = deleted(b1, e.new_fee_utxo);
    lemma_delete_agrees(a2, b2, points, e.sell_payout_utxos);
    let a3 = deleted_all(a2, e.sell_payout_utxos);
    let b3 = deleted_all(b2, e.sell_payout_utxos);
    lemma_delete_agrees(a3, b3, points, e.buy_change_utxos);
    let a4 = deleted_all(a3, e.buy_change_utxos);
    lemma_created_removed(a.ledger, e);
    let a5 = restored(a4, e.old_treasury_utxo);
    if e.old_treasury_utxo is Some {
        let (o, output) = e.old_treasury_utxo->Some_0;
        if a4.utxos.dom().contains(o) {
            assert(a.ledger.utxos.dom().contains(o));
        }
        insert_keeps_index(a4, o, output);
    }
    if e.old_fee_utxo is Some {
        let (o, output) = e.old_fee_utxo->Some_0;
        if a4.utxos.dom().contains(o) {
            assert(a.ledger.utxos.dom().contains(o));
        }
        insert_keeps_index(a5, o, output);
    }
}

/// An old coin that is still there is as it was, and the two old coins are
/// not two coins at one place.
spec fn is_kept(a: LedgerView, e: EntryView) -> bool {
    &&& e.old_treasury_utxo is Some && a.utxos.dom().contains(e.old_treasury_utxo->Some_0.0)
        ==> a.utxos[e.old_treasury_utxo->Some_0.0] == e.old_treasury_utxo->Some_0.1
    &&& e.old_fee_utxo is Some && a.utxos.dom().contains(e.old_fee_utxo->Some_0.0)
        ==> a.utxos[e.old_fee_utxo->Some_0.0] == e.old_fee_utxo->Some_0.1
    &&& e.old_treasury_utxo is Some && e.old_fee_utxo is Some && e.old_treasury_utxo->Some_0.0
        == e.old_fee_utxo->Some_0.0 ==> e.old_treasury_utxo == e.old_fee_utxo
}

/// Undoing the consolidation of some markets does the same with and without
/// some other coins.
proof fn lemma_markets_agree(
    before: Holdings,
    addresses: Map<MarketId, FundsAddresses>,
    due: Seq<(MarketId, ())>,
    t: BlockTrades,
    a: Holdings,
    points: Seq<OutPoint>,
)
    requires
        before.ledger.index_in_step(),
        markets_gathered(before, addresses, due, t) is Ok,
        all_created(markets_gathered(before, addresses, due, t)->Ok_0.1).no_duplicates(),
        all_free(before.ledger, all_created(markets_gathered(before, addresses, due, t)->Ok_0.1)),
        all_free(before.ledger, points),
        forall|o: OutPoint| #[trigger]
            all_created(markets_gathered(before, addresses, due, t)->Ok_0.1).contains(o)
                ==> !points.contains(o),
        agree_but(a.ledger, markets_gathered(before, addresses, due, t)->Ok_0.0.ledger, points),
        a.funds == markets_gathered(before, addresses, due, t)->Ok_0.0.funds,
        a.ledger.index_in_step(),
    ensures
        ({
            let entries = markets_gathered(before, addresses, due, t)->Ok_0.1;
            &&& agree_but(entries_reverted(a, entries).ledger, before.ledger, points)
            &&& entries_reverted(a, entries).funds == before.funds
            &&& entries_reverted(a, entries).ledger.index_in_step()
        }),
    decreases due.len(),
{
    if due.len() > 0 {
        let (after, entries) = markets_gathered(before, addresses, due, t)->Ok_0;
        let (mid, front) = markets_gathered(before, addresses, due.drop_last(), t)->Ok_0;
        let m = due.last().0;
        let e = entry_of(mid, m, t);
        assert(entries.drop_last() =~= front);
        assert(entries.last() == e);
        let p = all_created(front);
        let q = created(e);
        assert(all_created(entries) == p + q);
        lemma_concat(p, q);
        assert forall|i: int| 0 <= i < p.len() implies !before.ledger.utxos.dom().contains(
            #[trigger] p[i],
        ) by {
            assert((p + q)[i] == p[i]);
        }
        lemma_markets_reverted(before, addresses, due.drop_last(), t);
        assert forall|i: int| 0 <= i < q.len() implies !mid.ledger.utxos.dom().contains(
            #[trigger] q[i],
        ) by {
            assert((p + q)[p.len() + i] == q[i]);
            assert(q.contains(q[i]));
        }
        reverting_undoes_gathering(mid, addresses, m, t);
        lemma_market_moves(mid, addresses, m, t);
        assert forall|o: OutPoint| mid.ledger.utxos.dom().contains(o) implies !points.contains(
            o,
        ) by {
            if points.contains(o) {
                assert(points[points.index_of(o)] == o);
                assert(p.contains(o));
                assert(all_created(entries).contains(o));
            }
        }
        assert forall|o: OutPoint| #[trigger] q.contains(o) implies !mid.ledger
            .utxos.dom().contains(o) by {
            assert(q[q.index_of(o)] == o);
        }
        if e.old_treasury_utxo is Some {
            let o = e.old_treasury_utxo->Some_0.0;
            assert(mid.ledger.utxos.dom().contains(o));
            if a.ledger.utxos.dom().contains(o) {
                assert(after.ledger.utxos.dom().contains(o));
            }
        }
        if e.old_fee_utxo is Some {
            let o = e.old_fee_utxo->Some_0.0;
            assert(mid.ledger.utxos.dom().contains(o));
            if a.ledger.utxos.dom().contains(o) {
                assert(after.ledger.utxos.dom().contains(o));
            }
        }
        assert(is_kept(a.ledger, e));
        assert forall|o: OutPoint| #[trigger] created(e).contains(o) implies !points.contains(
            o,
        ) by {
            assert(all_created(entries).contains(o));
        }
        lemma_entry_agrees(a, after, points, e);
        assert forall|o: OutPoint| #[trigger] p.contains(o) implies !points.contains(o) by {
            assert(all_created(entries).contains(o));
        }
        lemma_markets_agree(
            before,
            addresses,
            due.drop_last(),
            t,
            entry_reverted(a, e),
            points,
        );
    }
}

/// The coins that the consolidation of a block makes.
pub open spec fn made(undo: ConsolidationUndoView) -> Seq<OutPoint> {
    all_created(undo.entries) + undo.sell_input_change_utxos
}

/// Undoing the consolidation of a block gives back the ledger, and where the
/// funds of markets were, when the coins that it made were new.
pub proof fn reverting_undoes_consolidating(
    before: Holdings,
    addresses: Map<MarketId, FundsAddresses>,
    t: BlockTrades,
    changes: Seq<InputChange>,
    after: Holdings,
    undo: ConsolidationUndoView,
)
    requires
        before.ledger.index_in_step(),
        consolidated(before, addresses, t, changes) == Ok::<
            (Holdings, Option<ConsolidationUndoView>),
            Error,
        >((after, Some(undo))),
        made(undo).no_duplicates(),
        all_free(before.ledger, made(undo)),
    ensures
        unconsolidated(after, undo) == before,
{
    let due = markets_due(t);
    let (mid, entries) = markets_gathered(before, addresses, due, t)->Ok_0;
    let p = all_created(entries);
    let q = returned_points(changes);
    lemma_concat(p, q);
    assert forall|i: int| 0 <= i < p.len() implies !before.ledger.utxos.dom().contains(
        #[trigger] p[i],
    ) by {
        assert((p + q)[i] == p[i]);
    }
    assert forall|i: int| 0 <= i < q.len() implies !before.ledger.utxos.dom().contains(
        #[trigger] q[i],
    ) by {
        assert((p + q)[p.len() + i] == q[i]);
    }
    lemma_markets_reverted(before, addresses, due, t);
    assert forall|i: int| 0 <= i < q.len() implies !mid.ledger.utxos.dom().contains(
        #[trigger] q[i],
    ) by {
        assert(q.contains(q[i]));
    }
    lemma_inputs_grow(mid.ledger, changes);
    assert(agree_but(after.ledger, mid.ledger, q));
    lemma_markets_agree(before, addresses, due, t, after, q);
    let back = entries_reverted(after, entries);
    lemma_deleted_all(back.ledger, q);
    let end = deleted_all(back.ledger, q);
    assert forall|o: OutPoint| end.utxos.dom().contains(o) <==> before.ledger.utxos.dom().contains(
        o,
    ) by {
        if q.contains(o) {
            assert(q[q.index_of(o)] == o);
        } else {
            assert(back.ledger.utxos.dom().contains(o) <==> before.ledger.utxos.dom().contains(o));
        }
    }
    assert forall|o: OutPoint| end.utxos.dom().contains(o) implies #[trigger] end.utxos[o]
        == before.ledger.utxos[o] by {
        assert(back.ledger.utxos[o] == before.ledger.utxos[o]);
    }
    assert(end.utxos =~= before.ledger.utxos);
    lemma_same_ledger(end, before.ledger);
}

/// What buyers put into a market, without what the miner gets.
pub open spec fn paid_in(buys: Seq<PendingBuySettlement>, m: MarketId, miner_fee: u64) -> int
    decreases buys.len(),
{
    if buys.len() == 0 {
        0
    } else {
        paid_in(buys.drop_last(), m, miner_fee) + if buys.last().market_id == m {
            buys.last().input_value_sats - miner_fee
        } else {
            0
        }
    }
}

/// What the buyers of a market get back.
pub open spec fn changes_paid(buys: Seq<PendingBuySettlement>, m: MarketId, miner_fee: u64) -> int
    decreases buys.len(),
{
    if buys.len() == 0 {
        0
    } else {
        changes_paid(buys.drop_last(), m, miner_fee) + if buys.last().market_id == m {
            change_of(buys.last(), miner_fee)
        } else {
            0
        }
    }
}

proof fn lemma_changes(buys: Seq<PendingBuySettlement>, m: MarketId, miner_fee: u64)
    ensures
        changes_paid(buys, m, miner_fee) == paid_in(buys, m, miner_fee) - costs(buys, m) - buy_fees(
            buys,
            m,
        ),
    decreases buys.len(),
{
    if buys.len() > 0 {
        lemma_changes(buys.drop_last(), m, miner_fee);
    }
}

proof fn lemma_market_coin_value(address: Address, m: MarketId, sats: u64, is_fee: bool)
    ensures
        market_coin(address, m, sats, is_fee).bitcoin_value() == sats,
{
}

/// A consolidation neither makes nor loses money: what is in the coins of a
/// market afterwards, with what sellers are paid and buyers get back, is what
/// was in its coins before, with what buyers put in. This leaves out a market
/// with an empty treasury in which nothing was sold, and what was bought cost
/// nothing.
pub proof fn consolidation_conserves_value(
    before: Holdings,
    addresses: Map<MarketId, FundsAddresses>,
    m: MarketId,
    t: BlockTrades,
)
    requires
        before.ledger.index_in_step(),
        market_gathered(before, addresses, m, t) is Ok,
        created(entry_of(before, m, t)).no_duplicates(),
        all_free(before.ledger, created(entry_of(before, m, t))),
        pointer(before, m, true) is Some ==> held_coin(before, m, true) is Some,
        treasury_total(before, m, t) > 0 || sells_in(t.sells, m),
    ensures
        ({
            let after = market_gathered(before, addresses, m, t)->Ok_0;
            value_of(held_coin(after, m, false)) + value_of(held_coin(after, m, true)) + payouts(
                t.sells,
                m,
            ) + changes_paid(t.buys, m, t.miner_fee) == value_of(held_coin(before, m, false))
                + value_of(held_coin(before, m, true)) + paid_in(t.buys, m, t.miner_fee)
        }),
{
    let after = market_gathered(before, addresses, m, t)->Ok_0;
    let e = entry_of(before, m, t);
    let fees = fee_total(before, m, t);
    let rest = treasury_total(before, m, t) - sell_gross(m, t);
    lemma_changes(t.buys, m, t.miner_fee);
    lemma_buy_sums(t.buys, m);
    lemma_sell_sums(t.sells, m);
    lemma_market_moves(before, addresses, m, t);
    lemma_created_parts(e);
    lemma_market_coin_value(addresses[m].treasury, m, rest as u64, false);
    lemma_market_coin_value(addresses[m].author_fee, m, fees as u64, true);
    assert(funds(m, false) != funds(m, true));
    if rest > 0 {
        assert(held_coin(after, m, false) is Some);
        assert(value_of(held_coin(after, m, false)) == rest);
    } else {
        assert(held_coin(after, m, false) is None);
        assert(value_of(held_coin(after, m, false)) == rest);
    }
    let mid = treasury_gathered(before, addresses[m].treasury, m, t)->Ok_0;
    if fees > 0 {
        assert(value_of(held_coin(after, m, true)) == fees);
    } else {
        assert(value_of(held_coin(before, m, true)) == 0);
        lemma_treasury_moves(before, addresses[m].treasury, m, t);
        assert(after == mid);
        if pointer(before, m, true) is Some {
            let o = pointer(before, m, true)->Some_0;
            assert(before.ledger.utxos.dom().contains(o));
            if created(e).contains(o) {
                assert(created(e)[created(e).index_of(o)] == o);
            }
            if after.ledger.utxos.dom().contains(o) {
                assert(after.ledger.utxos[o] == before.ledger.utxos[o]);
            }
        }
    }
}

} // verus!
