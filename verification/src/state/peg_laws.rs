//! What disconnecting the events of the mainchain undoes.

use vstd::prelude::*;

use crate::bytes::{be32_order, bytes_before, bytes_before_irreflexive};
use crate::state::ledger::{at, delete_undoes_insert, AddressOutPoint, LedgerView};
use crate::state::peg::{
    last_row, lemma_last_row, next_seq_idx, BlockEvent, EventBlock, InfoView, PegView,
    TwoWayPegData, WithdrawalBundle, WithdrawalBundleEvent, WithdrawalBundleEventStatus,
};
use crate::state::two_way_peg_data::{
    all_withdrawn, bundle_event, bundle_wanted, connect_blocks, connect_events, connected,
    disconnect_blocks, disconnect_events, disconnect_one, disconnected, has_room, or_else,
    pending_removed, pending_stored, reinstate_all, reinstate_one, respend_all, unconfirm_all,
    undo_bundle_event, unwithdraw_all, withdraw_all, withdraw_one, withdrawn, Coins, PegProgress,
};
use crate::state::Error;
use crate::table::{has_key, is_last_key, row_has_key, Key};
use crate::types::transaction::order::{is_listing, listing, order_bytes, outpoint_before};
use crate::types::transaction::output::FilledOutput;
use crate::types::transaction::OutPoint;
use crate::types::{M6id, MainBlockHash};

verus! {

/// No name occurs twice.
pub open spec fn distinct(coins: Coins) -> bool {
    forall|i: int, j: int|
        0 <= i < j < coins.len() ==> (#[trigger] coins[i]).0 != (#[trigger] coins[j]).0
}

/// The output with a name.
pub open spec fn coin_at(coins: Coins, o: OutPoint) -> FilledOutput {
    coins[choose|i: int| row_has_key(coins, o, i)].1
}

proof fn lemma_coin_at(coins: Coins, i: int)
    requires
        distinct(coins),
        0 <= i < coins.len(),
    ensures
        has_key(coins, coins[i].0),
        coin_at(coins, coins[i].0) == coins[i].1,
{
    let o = coins[i].0;
    assert(row_has_key(coins, o, i));
    let j = choose|j: int| row_has_key(coins, o, j);
    if j < i {
        assert(coins[j].0 != coins[i].0);
    } else if i < j {
        assert(coins[i].0 != coins[j].0);
    }
}

/// Names of a list are those of all but the last, and the last.
proof fn lemma_last_name(coins: Coins, o: OutPoint)
    requires
        coins.len() > 0,
        distinct(coins),
    ensures
        has_key(coins, o) <==> has_key(coins.drop_last(), o) || o == coins.last().0,
        distinct(coins.drop_last()),
        !has_key(coins.drop_last(), coins.last().0),
        has_key(coins.drop_last(), o) ==> coin_at(coins, o) == coin_at(coins.drop_last(), o),
        coin_at(coins, coins.last().0) == coins.last().1,
{
    let head = coins.drop_last();
    let n = coins.len() - 1;
    assert forall|i: int, j: int| 0 <= i < j < head.len() implies (#[trigger] head[i]).0 != (
    #[trigger] head[j]).0 by {
        assert(head[i] == coins[i]);
        assert(head[j] == coins[j]);
    }
    if has_key(coins, o) {
        let i = choose|i: int| row_has_key(coins, o, i);
        if i < n {
            assert(row_has_key(head, o, i));
        }
    }
    if has_key(head, o) {
        let i = choose|i: int| row_has_key(head, o, i);
        assert(row_has_key(coins, o, i));
        lemma_coin_at(coins, i);
        lemma_coin_at(head, i);
    }
    if has_key(head, coins.last().0) {
        let i = choose|i: int| row_has_key(head, coins.last().0, i);
        assert(coins[i].0 == coins[n].0);
    }
    assert(row_has_key(coins, coins.last().0, n));
    lemma_coin_at(coins, n);
}

/// A ledger after a bundle has spent outputs.
pub open spec fn spent_view(x: LedgerView, coins: Coins, m6id: M6id) -> LedgerView {
    LedgerView {
        utxos: Map::new(
            |o: OutPoint| x.utxos.dom().contains(o) && !has_key(coins, o),
            |o: OutPoint| x.utxos[o],
        ),
        utxos_by_address: Map::new(
            |k: AddressOutPoint|
                x.utxos_by_address.dom().contains(k) && !(has_key(coins, k.outpoint)
                    && x.utxos[k.outpoint].address == k.address),
            |k: AddressOutPoint| (),
        ),
        stxos: Map::new(
            |o: OutPoint| x.stxos.dom().contains(o) || has_key(coins, o),
            |o: OutPoint|
                if has_key(coins, o) {
                    withdrawn(coin_at(coins, o), m6id)
                } else {
                    x.stxos[o]
                },
        ),
    }
}

/// A ledger after outputs that were spent are unspent again.
pub open spec fn reinstated_view(x: LedgerView, coins: Coins) -> LedgerView {
    LedgerView {
        utxos: Map::new(
            |o: OutPoint| x.utxos.dom().contains(o) || has_key(coins, o),
            |o: OutPoint|
                if has_key(coins, o) {
                    coin_at(coins, o)
                } else {
                    x.utxos[o]
                },
        ),
        utxos_by_address: Map::new(
            |k: AddressOutPoint|
                x.utxos_by_address.dom().contains(k) || (has_key(coins, k.outpoint) && coin_at(
                    coins,
                    k.outpoint,
                ).address == k.address),
            |k: AddressOutPoint| (),
        ),
        stxos: Map::new(
            |o: OutPoint| x.stxos.dom().contains(o) && !has_key(coins, o),
            |o: OutPoint| x.stxos[o],
        ),
    }
}

proof fn lemma_ledger_equal(a: LedgerView, b: LedgerView)
    requires
        a.utxos =~= b.utxos,
        a.utxos_by_address =~= b.utxos_by_address,
        a.stxos =~= b.stxos,
    ensures
        a == b,
{
}

proof fn lemma_no_coins(x: LedgerView, m6id: M6id)
    ensures
        spent_view(x, Seq::empty(), m6id) == x,
        reinstated_view(x, Seq::empty()) == x,
{
    let none: Coins = Seq::empty();
    assert(forall|o: OutPoint| !has_key(none, o));
    lemma_ledger_equal(spent_view(x, none, m6id), x);
    lemma_ledger_equal(reinstated_view(x, none), x);
}

/// The outputs are unspent as listed.
pub open spec fn unspent(x: LedgerView, coins: Coins) -> bool {
    forall|i: int|
        0 <= i < coins.len() ==> x.utxos.dom().contains((#[trigger] coins[i]).0)
}

/// The outputs are spent.
pub open spec fn spent(x: LedgerView, coins: Coins) -> bool {
    forall|i: int|
        0 <= i < coins.len() ==> x.stxos.dom().contains((#[trigger] coins[i]).0)
}

proof fn lemma_withdraw_all(x: LedgerView, coins: Coins, m6id: M6id)
    requires
        distinct(coins),
        unspent(x, coins),
    ensures
        withdraw_all(x, coins, m6id) == Ok::<LedgerView, OutPoint>(spent_view(x, coins, m6id)),
    decreases coins.len(),
{
    if coins.len() == 0 {
        assert(coins =~= Seq::empty());
        lemma_no_coins(x, m6id);
    } else {
        let head = coins.drop_last();
        let last = coins.last();
        assert forall|i: int| 0 <= i < head.len() implies x.utxos.dom().contains(
            (#[trigger] head[i]).0,
        ) by {
            assert(head[i] == coins[i]);
        }
        lemma_last_name(coins, last.0);
        lemma_withdraw_all(x, head, m6id);
        let mid = spent_view(x, head, m6id);
        assert(x.utxos.dom().contains(coins[coins.len() - 1].0));
        assert(mid.utxos.dom().contains(last.0));
        let next = withdraw_one(mid, last, m6id);
        let goal = spent_view(x, coins, m6id);
        assert forall|o: OutPoint| has_key(coins, o) <==> has_key(head, o) || o == last.0 by {
            lemma_last_name(coins, o);
        }
        assert forall|o: OutPoint| has_key(head, o) implies coin_at(coins, o) == coin_at(head, o) by {
            lemma_last_name(coins, o);
        }
        lemma_ledger_equal(next, goal);
    }
}

proof fn lemma_respend_all(x: LedgerView, coins: Coins, m6id: M6id)
    requires
        distinct(coins),
        unspent(x, coins),
    ensures
        respend_all(x, coins, m6id) == Ok::<LedgerView, OutPoint>(spent_view(x, coins, m6id)),
    decreases coins.len(),
{
    if coins.len() == 0 {
        assert(coins =~= Seq::empty());
        lemma_no_coins(x, m6id);
    } else {
        let head = coins.drop_last();
        let last = coins.last();
        lemma_last_name(coins, last.0);
        assert(x.utxos.dom().contains(coins[coins.len() - 1].0));
        let mid = withdraw_one(x, last, m6id);
        assert forall|i: int| 0 <= i < head.len() implies mid.utxos.dom().contains(
            (#[trigger] head[i]).0,
        ) by {
            assert(head[i] == coins[i]);
            assert(row_has_key(head, head[i].0, i));
            assert(head[i].0 != last.0);
        }
        lemma_respend_all(mid, head, m6id);
        assert forall|o: OutPoint| has_key(coins, o) <==> has_key(head, o) || o == last.0 by {
            lemma_last_name(coins, o);
        }
        assert forall|o: OutPoint| has_key(head, o) implies coin_at(coins, o) == coin_at(head, o) by {
            lemma_last_name(coins, o);
        }
        lemma_ledger_equal(spent_view(mid, head, m6id), spent_view(x, coins, m6id));
    }
}

proof fn lemma_unconfirm_all(x: LedgerView, coins: Coins)
    requires
        distinct(coins),
        spent(x, coins),
    ensures
        unconfirm_all(x, coins) == Ok::<LedgerView, OutPoint>(reinstated_view(x, coins)),
    decreases coins.len(),
{
    if coins.len() == 0 {
        assert(coins =~= Seq::empty());
        lemma_no_coins(x, arbitrary());
    } else {
        let head = coins.drop_last();
        let last = coins.last();
        assert forall|i: int| 0 <= i < head.len() implies x.stxos.dom().contains(
            (#[trigger] head[i]).0,
        ) by {
            assert(head[i] == coins[i]);
        }
        lemma_last_name(coins, last.0);
        lemma_unconfirm_all(x, head);
        let mid = reinstated_view(x, head);
        assert(x.stxos.dom().contains(coins[coins.len() - 1].0));
        assert forall|o: OutPoint| has_key(coins, o) <==> has_key(head, o) || o == last.0 by {
            lemma_last_name(coins, o);
        }
        assert forall|o: OutPoint| has_key(head, o) implies coin_at(coins, o) == coin_at(head, o) by {
            lemma_last_name(coins, o);
        }
        lemma_ledger_equal(reinstate_one(mid, last), reinstated_view(x, coins));
    }
}

proof fn lemma_reinstate_all(x: LedgerView, coins: Coins)
    requires
        distinct(coins),
    ensures
        reinstate_all(x, coins) == reinstated_view(x, coins),
    decreases coins.len(),
{
    if coins.len() == 0 {
        assert(coins =~= Seq::empty());
        lemma_no_coins(x, arbitrary());
    } else {
        let head = coins.drop_last();
        let last = coins.last();
        lemma_last_name(coins, last.0);
        lemma_reinstate_all(x, head);
        assert forall|o: OutPoint| has_key(coins, o) <==> has_key(head, o) || o == last.0 by {
            lemma_last_name(coins, o);
        }
        assert forall|o: OutPoint| has_key(head, o) implies coin_at(coins, o) == coin_at(head, o) by {
            lemma_last_name(coins, o);
        }
        lemma_ledger_equal(
            reinstate_one(reinstated_view(x, head), last),
            reinstated_view(x, coins),
        );
    }
}

proof fn lemma_unwithdraw_all(x: LedgerView, coins: Coins)
    requires
        distinct(coins),
        spent(x, coins),
    ensures
        unwithdraw_all(x, coins) == Ok::<LedgerView, OutPoint>(reinstated_view(x, coins)),
    decreases coins.len(),
{
    if coins.len() == 0 {
        assert(coins =~= Seq::empty());
        lemma_no_coins(x, arbitrary());
    } else {
        let head = coins.drop_last();
        let last = coins.last();
        lemma_last_name(coins, last.0);
        assert(x.stxos.dom().contains(coins[coins.len() - 1].0));
        let mid = reinstate_one(x, last);
        assert forall|i: int| 0 <= i < head.len() implies mid.stxos.dom().contains(
            (#[trigger] head[i]).0,
        ) by {
            assert(head[i] == coins[i]);
            assert(row_has_key(head, head[i].0, i));
            assert(head[i].0 != last.0);
        }
        lemma_unwithdraw_all(mid, head);
        assert forall|o: OutPoint| has_key(coins, o) <==> has_key(head, o) || o == last.0 by {
            lemma_last_name(coins, o);
        }
        assert forall|o: OutPoint| has_key(head, o) implies coin_at(coins, o) == coin_at(head, o) by {
            lemma_last_name(coins, o);
        }
        lemma_ledger_equal(reinstated_view(mid, head), reinstated_view(x, coins));
    }
}

/// The outputs are unspent just as listed, none of them is noted as spent, and
/// the index is in step.
pub open spec fn withdrawable(x: LedgerView, coins: Coins) -> bool {
    &&& distinct(coins)
    &&& x.index_in_step()
    &&& forall|i: int|
        0 <= i < coins.len() ==> {
            let coin = #[trigger] coins[i];
            &&& x.utxos.dom().contains(coin.0)
            &&& x.utxos[coin.0] == coin.1
            &&& !x.stxos.dom().contains(coin.0)
        }
}

/// The outputs are spent by a bundle just as listed, none of them is unspent,
/// and the index is in step.
pub open spec fn withdrawn_by(x: LedgerView, coins: Coins, m6id: M6id) -> bool {
    &&& distinct(coins)
    &&& x.index_in_step()
    &&& forall|i: int|
        0 <= i < coins.len() ==> {
            let coin = #[trigger] coins[i];
            &&& !x.utxos.dom().contains(coin.0)
            &&& x.stxos.dom().contains(coin.0)
            &&& x.stxos[coin.0] == withdrawn(coin.1, m6id)
        }
}

proof fn lemma_has_key_index(coins: Coins, o: OutPoint) -> (i: int)
    requires
        has_key(coins, o),
        distinct(coins),
    ensures
        0 <= i < coins.len(),
        coins[i].0 == o,
        coin_at(coins, o) == coins[i].1,
{
    let i = choose|i: int| row_has_key(coins, o, i);
    lemma_coin_at(coins, i);
    i
}

/// Outputs that a bundle spends and that are then unspent again: nothing has
/// changed.
pub proof fn reinstating_undoes_withdrawing(x: LedgerView, coins: Coins, m6id: M6id)
    requires
        withdrawable(x, coins),
    ensures
        withdraw_all(x, coins, m6id) == Ok::<LedgerView, OutPoint>(spent_view(x, coins, m6id)),
        unwithdraw_all(spent_view(x, coins, m6id), coins) == Ok::<LedgerView, OutPoint>(x),
        unconfirm_all(spent_view(x, coins, m6id), coins) == Ok::<LedgerView, OutPoint>(x),
{
    assert forall|i: int| 0 <= i < coins.len() implies x.utxos.dom().contains(
        (#[trigger] coins[i]).0,
    ) by {}
    lemma_withdraw_all(x, coins, m6id);
    let y = spent_view(x, coins, m6id);
    assert forall|i: int| 0 <= i < coins.len() implies y.stxos.dom().contains(
        (#[trigger] coins[i]).0,
    ) by {
        assert(row_has_key(coins, coins[i].0, i));
    }
    lemma_unwithdraw_all(y, coins);
    lemma_unconfirm_all(y, coins);
    let z = reinstated_view(y, coins);
    assert forall|o: OutPoint| has_key(coins, o) implies x.utxos.dom().contains(o) && x.utxos[o]
        == coin_at(coins, o) && !x.stxos.dom().contains(o) by {
        let i = lemma_has_key_index(coins, o);
        assert(coins[i].0 == o);
    }
    assert forall|k: AddressOutPoint|
        z.utxos_by_address.dom().contains(k) <==> x.utxos_by_address.dom().contains(k) by {
        assert(k == at(k.address, k.outpoint));
        if has_key(coins, k.outpoint) {
            assert(x.utxos_by_address.dom().contains(at(k.address, k.outpoint)) <==> {
                &&& x.utxos.dom().contains(k.outpoint)
                &&& x.utxos[k.outpoint].address == k.address
            });
        }
    }
    lemma_ledger_equal(z, x);
}

/// Outputs that are given back and then spent again by the bundle: nothing has
/// changed.
pub proof fn respending_undoes_reinstating(x: LedgerView, coins: Coins, m6id: M6id)
    requires
        withdrawn_by(x, coins, m6id),
    ensures
        respend_all(reinstate_all(x, coins), coins, m6id) == Ok::<LedgerView, OutPoint>(x),
{
    lemma_reinstate_all(x, coins);
    let y = reinstated_view(x, coins);
    assert forall|i: int| 0 <= i < coins.len() implies y.utxos.dom().contains(
        (#[trigger] coins[i]).0,
    ) by {
        assert(row_has_key(coins, coins[i].0, i));
    }
    lemma_respend_all(y, coins, m6id);
    let z = spent_view(y, coins, m6id);
    assert forall|o: OutPoint| has_key(coins, o) implies !x.utxos.dom().contains(o)
        && x.stxos.dom().contains(o) && x.stxos[o] == withdrawn(coin_at(coins, o), m6id) by {
        let i = lemma_has_key_index(coins, o);
        assert(coins[i].0 == o);
    }
    assert forall|k: AddressOutPoint|
        z.utxos_by_address.dom().contains(k) <==> x.utxos_by_address.dom().contains(k) by {
        assert(k == at(k.address, k.outpoint));
        assert(x.utxos_by_address.dom().contains(at(k.address, k.outpoint)) <==> {
            &&& x.utxos.dom().contains(k.outpoint)
            &&& x.utxos[k.outpoint].address == k.address
        });
    }
    lemma_ledger_equal(z, x);
}

/// All outputs are spent by a bundle and then unspent again: nothing has
/// changed, if no output was both spent and unspent.
pub proof fn unconfirming_undoes_withdrawing_all(x: LedgerView, m6id: M6id, coins: Coins)
    requires
        x.index_in_step(),
        forall|o: OutPoint| #[trigger]
            x.utxos.dom().contains(o) ==> !x.stxos.dom().contains(o),
        is_listing(coins, x.utxos),
    ensures
        unconfirm_all(all_withdrawn(x, m6id), coins) == Ok::<LedgerView, OutPoint>(x),
{
    assert(distinct(coins)) by {
        assert forall|i: int, j: int| 0 <= i < j < coins.len() implies (#[trigger] coins[i]).0 != (
        #[trigger] coins[j]).0 by {
            assert(outpoint_before(coins[i].0, coins[j].0));
            bytes_before_irreflexive(
                order_bytes(coins[i].0),
            );
        }
    }
    let y = all_withdrawn(x, m6id);
    assert forall|i: int| 0 <= i < coins.len() implies y.stxos.dom().contains(
        (#[trigger] coins[i]).0,
    ) by {
        assert(x.utxos.dom().contains(coins[i].0));
    }
    lemma_unconfirm_all(y, coins);
    let z = reinstated_view(y, coins);
    assert forall|o: OutPoint| has_key(coins, o) <==> x.utxos.dom().contains(o) by {
        if has_key(coins, o) {
            let i = lemma_has_key_index(coins, o);
            assert(x.utxos.dom().contains(coins[i].0));
        }
    }
    assert forall|o: OutPoint| has_key(coins, o) implies x.utxos[o] == coin_at(coins, o) by {
        let i = lemma_has_key_index(coins, o);
        assert(x.utxos[coins[i].0] == coins[i].1);
    }
    assert forall|k: AddressOutPoint|
        z.utxos_by_address.dom().contains(k) <==> x.utxos_by_address.dom().contains(k) by {
        assert(k == at(k.address, k.outpoint));
        assert(x.utxos_by_address.dom().contains(at(k.address, k.outpoint)) <==> {
            &&& x.utxos.dom().contains(k.outpoint)
            &&& x.utxos[k.outpoint].address == k.address
        });
    }
    lemma_ledger_equal(z, x);
}

/// Every bundle is in some state, and a history of failures is not empty.
pub open spec fn valid_peg(peg: PegView) -> bool {
    &&& forall|m6id: M6id| #[trigger]
        peg.bundles.dom().contains(m6id) ==> peg.bundles[m6id].status.len() > 0
    &&& peg.latest_failed is Some ==> peg.latest_failed->0.len() > 0
}

/// What must hold for an event to be undone exactly. The outputs that a bundle
/// spends are unspent as the bundle lists them; those that it gives back are
/// spent by it; and the event is not one that the bundle has already had.
pub open spec fn reversible_bundle_event(
    ledger: LedgerView,
    peg: PegView,
    event: WithdrawalBundleEvent,
) -> bool {
    let row = peg.bundles[event.m6id];
    let latest = row.status.last().value;
    match event.status {
        WithdrawalBundleEventStatus::Submitted => {
            peg.pending == Some(event.m6id) && row.info is Known ==> withdrawable(
                ledger,
                row.info->Known_0.spend_utxos@,
            )
        },
        WithdrawalBundleEventStatus::Confirmed => {
            &&& !(latest is Confirmed)
            &&& latest is SubmittedUnexpected && row.info is Known ==> withdrawable(
                ledger,
                row.info->Known_0.spend_utxos@,
            )
            &&& row.info is Unknown ==> {
                &&& ledger.index_in_step()
                &&& forall|o: OutPoint| #[trigger]
                    ledger.utxos.dom().contains(o) ==> !ledger.stxos.dom().contains(o)
                &&& exists|coins: Coins| is_listing(coins, ledger.utxos)
            }
        },
        WithdrawalBundleEventStatus::Failed => {
            &&& !(latest is Failed)
            &&& latest is Submitted && row.info is Known ==> withdrawn_by(
                ledger,
                row.info->Known_0.spend_utxos@,
                event.m6id,
            )
        },
    }
}

proof fn lemma_peg_equal(a: PegView, b: PegView)
    requires
        a.pending == b.pending,
        a.latest_failed == b.latest_failed,
        a.bundles =~= b.bundles,
        a.deposit_blocks == b.deposit_blocks,
        a.event_blocks == b.event_blocks,
    ensures
        a == b,
{
}

/// Undoing what the mainchain said of a bundle takes the ledger and the peg
/// back to where they were.
pub proof fn disconnecting_undoes_bundle_event(
    ledger: LedgerView,
    peg: PegView,
    block_height: u32,
    event_block_hash: MainBlockHash,
    event: WithdrawalBundleEvent,
)
    requires
        valid_peg(peg),
        reversible_bundle_event(ledger, peg, event),
        bundle_event(ledger, peg, block_height, event_block_hash, event) is Ok,
    ensures
        ({
            let next = bundle_event(ledger, peg, block_height, event_block_hash, event)->Ok_0;
            undo_bundle_event(next.0, next.1, block_height, event) == Ok::<
                (LedgerView, PegView),
                Error,
            >((ledger, peg))
        }),
{
    let m6id = event.m6id;
    let row = peg.bundles[m6id];
    let next = bundle_event(ledger, peg, block_height, event_block_hash, event)->Ok_0;
    let back = undo_bundle_event(next.0, next.1, block_height, event);
    match event.status {
        WithdrawalBundleEventStatus::Submitted => {
            if peg.pending == Some(m6id) {
                let coins = row.info->Known_0.spend_utxos@;
                reinstating_undoes_withdrawing(ledger, coins, m6id);
                let status = next.1.bundles[m6id].status;
                assert(status.drop_last() =~= row.status);
                lemma_peg_equal(back->Ok_0.1, peg);
            } else if peg.bundles.dom().contains(m6id) {
                let status = next.1.bundles[m6id].status;
                assert(status.drop_last() =~= row.status);
                lemma_peg_equal(back->Ok_0.1, peg);
            } else {
                assert(next.1.bundles[m6id].status.drop_last().len() == 0);
                lemma_peg_equal(back->Ok_0.1, peg);
            }
        },
        WithdrawalBundleEventStatus::Confirmed => {
            let status = next.1.bundles[m6id].status;
            assert(status.drop_last() =~= row.status);
            match row.info {
                InfoView::Known(bundle) => {
                    if row.status.last().value is SubmittedUnexpected {
                        reinstating_undoes_withdrawing(ledger, bundle.spend_utxos@, m6id);
                    }
                },
                InfoView::Unknown => {
                    let coins = listing(ledger.utxos);
                    assert(is_listing(coins, ledger.utxos));
                    unconfirming_undoes_withdrawing_all(ledger, m6id, coins);
                },
                InfoView::UnknownConfirmed(_) => {},
            }
            lemma_peg_equal(back->Ok_0.1, peg);
        },
        WithdrawalBundleEventStatus::Failed => {
            let status = next.1.bundles[m6id].status;
            assert(status.drop_last() =~= row.status);
            if row.info is Known && row.status.last().value is Submitted {
                let coins = row.info->Known_0.spend_utxos@;
                respending_undoes_reinstating(ledger, coins, m6id);
                match peg.latest_failed {
                    Some(history) => {
                        assert(next.1.latest_failed->0.drop_last() =~= history);
                    },
                    None => {},
                }
            }
            lemma_peg_equal(back->Ok_0.1, peg);
        },
    }
}

/// What must hold for an event to be undone exactly: a deposit has a new name,
/// and the index is in step.
pub open spec fn reversible_event(at: PegProgress, event: BlockEvent) -> bool {
    &&& valid_peg(at.peg)
    &&& match event {
        BlockEvent::Deposit(deposit) => {
            &&& at.ledger.index_in_step()
            &&& !at.ledger.utxos.dom().contains(OutPoint::Deposit(deposit.outpoint))
        },
        BlockEvent::WithdrawalBundle(e) => reversible_bundle_event(at.ledger, at.peg, e),
    }
}

/// The same of each of a list of events, where those before it have taken
/// effect.
pub open spec fn reversible_events(
    at: PegProgress,
    block_height: u32,
    event_block_hash: MainBlockHash,
    events: Seq<BlockEvent>,
) -> bool
    decreases events.len(),
{
    if events.len() == 0 {
        true
    } else {
        let head = events.drop_last();
        &&& reversible_events(at, block_height, event_block_hash, head)
        &&& connect_events(at, block_height, event_block_hash, head) is Ok ==> reversible_event(
            connect_events(at, block_height, event_block_hash, head)->Ok_0,
            events.last(),
        )
    }
}

/// Some event is a deposit.
pub open spec fn has_deposit(events: Seq<BlockEvent>) -> bool {
    exists|i: int| 0 <= i < events.len() && (#[trigger] events[i]) is Deposit
}

/// Some event is one of a bundle.
pub open spec fn has_bundle_event(events: Seq<BlockEvent>) -> bool {
    exists|i: int| 0 <= i < events.len() && (#[trigger] events[i]) is WithdrawalBundle
}

proof fn lemma_kinds_of_events(events: Seq<BlockEvent>)
    requires
        events.len() > 0,
    ensures
        has_deposit(events) <==> has_deposit(events.drop_last()) || events.last() is Deposit,
        has_bundle_event(events) <==> has_bundle_event(events.drop_last())
            || events.last() is WithdrawalBundle,
{
    let head = events.drop_last();
    if has_deposit(head) {
        let i = choose|i: int| 0 <= i < head.len() && (#[trigger] head[i]) is Deposit;
        assert(events[i] is Deposit);
    }
    if has_deposit(events) {
        let i = choose|i: int| 0 <= i < events.len() && (#[trigger] events[i]) is Deposit;
        if i < head.len() {
            assert(head[i] is Deposit);
        }
    }
    if has_bundle_event(head) {
        let i = choose|i: int| 0 <= i < head.len() && (#[trigger] head[i]) is WithdrawalBundle;
        assert(events[i] is WithdrawalBundle);
    }
    if has_bundle_event(events) {
        let i = choose|i: int| 0 <= i < events.len() && (#[trigger] events[i]) is WithdrawalBundle;
        if i < head.len() {
            assert(head[i] is WithdrawalBundle);
        }
    }
    assert(events[events.len() - 1] == events.last());
}

/// Undoing the events of a mainchain block, the last first, takes the ledger
/// and the peg back to where they were.
pub proof fn disconnecting_undoes_events(
    at: PegProgress,
    block_height: u32,
    event_block_hash: MainBlockHash,
    events: Seq<BlockEvent>,
    from: PegProgress,
)
    requires
        reversible_events(at, block_height, event_block_hash, events),
        connect_events(at, block_height, event_block_hash, events) is Ok,
        from.ledger == connect_events(at, block_height, event_block_hash, events)->Ok_0.ledger,
        from.peg == connect_events(at, block_height, event_block_hash, events)->Ok_0.peg,
    ensures
        disconnect_events(from, block_height, event_block_hash, events) == Ok::<
            PegProgress,
            Error,
        >(
            PegProgress {
                ledger: at.ledger,
                peg: at.peg,
                deposit_block: if has_deposit(events) {
                    or_else(from.deposit_block, Some(event_block_hash))
                } else {
                    from.deposit_block
                },
                event_block: if has_bundle_event(events) {
                    or_else(from.event_block, Some(event_block_hash))
                } else {
                    from.event_block
                },
            },
        ),
    decreases events.len(),
{
    if events.len() > 0 {
        let head = events.drop_last();
        lemma_kinds_of_events(events);
        let mid = connect_events(at, block_height, event_block_hash, head)->Ok_0;
        match events.last() {
            BlockEvent::Deposit(deposit) => {
                delete_undoes_insert(
                    mid.ledger,
                    OutPoint::Deposit(deposit.outpoint),
                    deposit.output,
                );
            },
            BlockEvent::WithdrawalBundle(e) => {
                disconnecting_undoes_bundle_event(
                    mid.ledger,
                    mid.peg,
                    block_height,
                    event_block_hash,
                    e,
                );
            },
        }
        let next = disconnect_one(from, block_height, event_block_hash, events.last())->Ok_0;
        disconnecting_undoes_events(at, block_height, event_block_hash, head, next);
    }
}

/// The next row comes last.
proof fn lemma_next_is_last(
    m: Map<u32, (MainBlockHash, u32)>,
    row: (MainBlockHash, u32),
)
    requires
        next_seq_idx(m) <= u32::MAX,
        m.dom().finite(),
    ensures
        0 <= next_seq_idx(m),
        !m.dom().contains(next_seq_idx(m) as u32),
        last_row(m.insert(next_seq_idx(m) as u32, row)) == Some((next_seq_idx(m) as u32, row)),
{
    lemma_has_last(m);
    let idx = next_seq_idx(m) as u32;
    let next = m.insert(idx, row);
    match last_row(m) {
        Some(r) => {
            let last = r.0;
            assert(is_last_key(m, last));
            assert forall|k: u32| #[trigger] m.dom().contains(k) implies k <= last by {
                if k != last {
                    be32_order(k, last);
                }
            }
        },
        None => {
            assert forall|k: u32| !(#[trigger] m.dom().contains(k)) by {
                if m.dom().contains(k) {
                    assert(exists|l: u32| is_last_key(m, l));
                }
            }
        },
    }
    assert forall|k: u32| #[trigger] next.dom().contains(k) && k != idx implies bytes_before(
        k.key_bytes(),
        idx.key_bytes(),
    ) by {
        assert(m.dom().contains(k));
        be32_order(k, idx);
    }
    assert(is_last_key(next, idx));
    lemma_last_row(next, idx);
}

/// Rows have a last one, if there are any.
proof fn lemma_has_last(m: Map<u32, (MainBlockHash, u32)>)
    requires
        m.dom().finite(),
    ensures
        m.dom().len() > 0 ==> exists|k: u32| is_last_key(m, k),
        m.dom().len() == 0 ==> forall|k: u32| !m.dom().contains(k),
    decreases m.dom().len(),
{
    if m.dom().len() > 0 {
        let any = m.dom().choose();
        assert(m.dom().contains(any));
        let rest = m.remove(any);
        assert(rest.dom() =~= m.dom().remove(any));
        lemma_has_last(rest);
        if rest.dom().len() > 0 {
            let k = choose|k: u32| is_last_key(rest, k);
            assert(m.dom().contains(k));
            if k < any {
                assert forall|o: u32| #[trigger] m.dom().contains(o) && o != any implies bytes_before(
                    o.key_bytes(),
                    any.key_bytes(),
                ) by {
                    assert(rest.dom().contains(o));
                    if o != k {
                        be32_order(o, k);
                    }
                    be32_order(o, any);
                }
                assert(is_last_key(m, any));
            } else {
                assert forall|o: u32| #[trigger] m.dom().contains(o) && o != k implies bytes_before(
                    o.key_bytes(),
                    k.key_bytes(),
                ) by {
                    if o == any {
                        be32_order(any, k);
                    } else {
                        assert(rest.dom().contains(o));
                    }
                }
                assert(is_last_key(m, k));
            }
        } else {
            assert forall|o: u32| #[trigger] m.dom().contains(o) && o != any implies bytes_before(
                o.key_bytes(),
                any.key_bytes(),
            ) by {
                assert(rest.dom().contains(o));
            }
            assert(is_last_key(m, any));
        }
    } else {
        assert forall|k: u32| !m.dom().contains(k) by {
            if m.dom().contains(k) {
                vstd::set_lib::lemma_set_empty_equivalency_len(m.dom());
            }
        }
    }
}

/// No bundle that was stored at the height waits for submission.
pub open spec fn none_stored_at(peg: PegView, block_height: u32) -> bool {
    peg.pending is Some ==> peg.bundles.dom().contains(peg.pending->0)
        && peg.bundles[peg.pending->0].status.last().height != block_height
}

/// The hash of the last block with a deposit.
pub open spec fn last_deposit_block(blocks: Seq<EventBlock>) -> Option<MainBlockHash>
    decreases blocks.len(),
{
    if blocks.len() == 0 {
        None
    } else if has_deposit(blocks.last().events@) {
        Some(blocks.last().block_hash)
    } else {
        last_deposit_block(blocks.drop_last())
    }
}

/// The hash of the last block with an event of a bundle.
pub open spec fn last_event_block(blocks: Seq<EventBlock>) -> Option<MainBlockHash>
    decreases blocks.len(),
{
    if blocks.len() == 0 {
        None
    } else if has_bundle_event(blocks.last().events@) {
        Some(blocks.last().block_hash)
    } else {
        last_event_block(blocks.drop_last())
    }
}

/// The events of each block can be undone, where the blocks before it have taken
/// effect.
pub open spec fn reversible_blocks(
    at: PegProgress,
    block_height: u32,
    blocks: Seq<EventBlock>,
) -> bool
    decreases blocks.len(),
{
    if blocks.len() == 0 {
        true
    } else {
        let head = blocks.drop_last();
        &&& reversible_blocks(at, block_height, head)
        &&& connect_blocks(at, block_height, head) is Ok ==> reversible_events(
            connect_blocks(at, block_height, head)->Ok_0,
            block_height,
            blocks.last().block_hash,
            blocks.last().events@,
        )
    }
}

/// Undoing the events of mainchain blocks, the last first, takes the ledger and
/// the peg back to where they were.
pub proof fn disconnecting_undoes_blocks(
    at: PegProgress,
    block_height: u32,
    blocks: Seq<EventBlock>,
    from: PegProgress,
)
    requires
        reversible_blocks(at, block_height, blocks),
        connect_blocks(at, block_height, blocks) is Ok,
        from.ledger == connect_blocks(at, block_height, blocks)->Ok_0.ledger,
        from.peg == connect_blocks(at, block_height, blocks)->Ok_0.peg,
    ensures
        disconnect_blocks(from, block_height, blocks) == Ok::<PegProgress, Error>(
            PegProgress {
                ledger: at.ledger,
                peg: at.peg,
                deposit_block: or_else(from.deposit_block, last_deposit_block(blocks)),
                event_block: or_else(from.event_block, last_event_block(blocks)),
            },
        ),
    decreases blocks.len(),
{
    if blocks.len() > 0 {
        let head = blocks.drop_last();
        let mid = connect_blocks(at, block_height, head)->Ok_0;
        let hash = blocks.last().block_hash;
        let events = blocks.last().events@;
        disconnecting_undoes_events(mid, block_height, hash, events, from);
        let next = disconnect_events(from, block_height, hash, events)->Ok_0;
        disconnecting_undoes_blocks(at, block_height, head, next);
    }
}

/// Disconnecting what mainchain blocks said takes the ledger and the peg back to
/// where they were.
pub proof fn disconnecting_undoes_connecting(
    ledger: LedgerView,
    peg: PegView,
    block_height: u32,
    data: TwoWayPegData,
)
    requires
        has_room(peg),
        peg.deposit_blocks.dom().finite(),
        peg.event_blocks.dom().finite(),
        none_stored_at(peg, block_height),
        peg.latest_failure() is Ok,
        reversible_blocks(
            PegProgress { ledger, peg, deposit_block: None, event_block: None },
            block_height,
            data.blocks@,
        ),
        connected(ledger, peg, block_height, data) is Ok,
    ensures
        ({
            let next = connected(ledger, peg, block_height, data)->Ok_0;
            disconnected(next.0, next.1, block_height, data) == Ok::<(LedgerView, PegView), Error>(
                (ledger, peg),
            )
        }),
{
    let start = PegProgress { ledger, peg, deposit_block: None, event_block: None };
    let blocks = data.blocks@;
    let done = connect_blocks(start, block_height, blocks)->Ok_0;
    let next = connected(ledger, peg, block_height, data)->Ok_0;
    lemma_noted_blocks(start, block_height, blocks);
    let from = PegProgress {
        ledger: next.0,
        peg: next.1,
        deposit_block: None,
        event_block: None,
    };
    // The rows of mainchain blocks play no part in the events.
    let bare = PegProgress {
        ledger: done.ledger,
        peg: done.peg,
        deposit_block: None,
        event_block: None,
    };
    disconnecting_undoes_blocks(start, block_height, blocks, bare);
    lemma_blocks_frame(
        bare,
        block_height,
        blocks,
        next.1.deposit_blocks,
        next.1.event_blocks,
    );
    assert(from == (PegProgress {
        peg: PegView {
            deposit_blocks: next.1.deposit_blocks,
            event_blocks: next.1.event_blocks,
            ..bare.peg
        },
        ..bare
    }));
    match last_deposit_block(blocks) {
        Some(hash) => {
            lemma_next_is_last(peg.deposit_blocks, (hash, block_height));
            assert(peg.deposit_blocks.insert(
                next_seq_idx(peg.deposit_blocks) as u32,
                (hash, block_height),
            ).remove(next_seq_idx(peg.deposit_blocks) as u32) =~= peg.deposit_blocks);
        },
        None => {},
    }
    match last_event_block(blocks) {
        Some(hash) => {
            lemma_next_is_last(peg.event_blocks, (hash, block_height));
            assert(peg.event_blocks.insert(
                next_seq_idx(peg.event_blocks) as u32,
                (hash, block_height),
            ).remove(next_seq_idx(peg.event_blocks) as u32) =~= peg.event_blocks);
        },
        None => {},
    }
    let two = PegView { deposit_blocks: next.1.deposit_blocks, ..peg };
    assert(two.latest_failure() == peg.latest_failure());
    assert(disconnected(next.0, next.1, block_height, data)->Ok_0.1 == peg);
}

/// The blocks that are noted are the last ones with the events, and the rows of
/// blocks are as before.
proof fn lemma_noted_blocks(at: PegProgress, block_height: u32, blocks: Seq<EventBlock>)
    requires
        connect_blocks(at, block_height, blocks) is Ok,
    ensures
        ({
            let done = connect_blocks(at, block_height, blocks)->Ok_0;
            &&& done.deposit_block == or_else(last_deposit_block(blocks), at.deposit_block)
            &&& done.event_block == or_else(last_event_block(blocks), at.event_block)
            &&& done.peg.deposit_blocks == at.peg.deposit_blocks
            &&& done.peg.event_blocks == at.peg.event_blocks
        }),
    decreases blocks.len(),
{
    if blocks.len() > 0 {
        let head = blocks.drop_last();
        lemma_noted_blocks(at, block_height, head);
        lemma_last_blocks(
            connect_blocks(at, block_height, head)->Ok_0,
            block_height,
            blocks.last().block_hash,
            blocks.last().events@,
        );
    }
}

/// Undoing blocks does not look at the rows of mainchain blocks.
proof fn lemma_blocks_frame(
    from: PegProgress,
    block_height: u32,
    blocks: Seq<EventBlock>,
    deposit_blocks: Map<u32, (MainBlockHash, u32)>,
    event_blocks: Map<u32, (MainBlockHash, u32)>,
)
    requires
        disconnect_blocks(from, block_height, blocks) is Ok,
    ensures
        ({
            let other = PegProgress {
                peg: PegView { deposit_blocks, event_blocks, ..from.peg },
                ..from
            };
            let done = disconnect_blocks(from, block_height, blocks)->Ok_0;
            disconnect_blocks(other, block_height, blocks) == Ok::<PegProgress, Error>(
                PegProgress {
                    peg: PegView { deposit_blocks, event_blocks, ..done.peg },
                    ..done
                },
            )
        }),
    decreases blocks.len(),
{
    if blocks.len() > 0 {
        let hash = blocks.last().block_hash;
        let events = blocks.last().events@;
        lemma_disconnect_frame(from, block_height, hash, events, deposit_blocks, event_blocks);
        let next = disconnect_events(from, block_height, hash, events)->Ok_0;
        lemma_blocks_frame(
            next,
            block_height,
            blocks.drop_last(),
            deposit_blocks,
            event_blocks,
        );
    }
}

/// The blocks that are noted are those of the events, and the rows of blocks
/// are as before.
proof fn lemma_last_blocks(
    at: PegProgress,
    block_height: u32,
    hash: MainBlockHash,
    events: Seq<BlockEvent>,
)
    requires
        connect_events(at, block_height, hash, events) is Ok,
    ensures
        ({
            let done = connect_events(at, block_height, hash, events)->Ok_0;
            &&& done.deposit_block == if has_deposit(events) {
                Some(hash)
            } else {
                at.deposit_block
            }
            &&& done.event_block == if has_bundle_event(events) {
                Some(hash)
            } else {
                at.event_block
            }
            &&& done.peg.deposit_blocks == at.peg.deposit_blocks
            &&& done.peg.event_blocks == at.peg.event_blocks
        }),
    decreases events.len(),
{
    if events.len() > 0 {
        lemma_kinds_of_events(events);
        lemma_last_blocks(at, block_height, hash, events.drop_last());
    }
}

/// Undoing events does not look at the rows of mainchain blocks.
proof fn lemma_disconnect_frame(
    from: PegProgress,
    block_height: u32,
    hash: MainBlockHash,
    events: Seq<BlockEvent>,
    deposit_blocks: Map<u32, (MainBlockHash, u32)>,
    event_blocks: Map<u32, (MainBlockHash, u32)>,
)
    requires
        disconnect_events(from, block_height, hash, events) is Ok,
    ensures
        ({
            let other = PegProgress {
                peg: PegView { deposit_blocks, event_blocks, ..from.peg },
                ..from
            };
            let done = disconnect_events(from, block_height, hash, events)->Ok_0;
            disconnect_events(other, block_height, hash, events) == Ok::<PegProgress, Error>(
                PegProgress {
                    peg: PegView { deposit_blocks, event_blocks, ..done.peg },
                    ..done
                },
            )
        }),
    decreases events.len(),
{
    if events.len() > 0 {
        let next = disconnect_one(from, block_height, hash, events.last())->Ok_0;
        lemma_disconnect_frame(
            next,
            block_height,
            hash,
            events.drop_last(),
            deposit_blocks,
            event_blocks,
        );
    }
}

/// Disconnecting takes back a bundle that was stored to wait for submission.
pub proof fn disconnecting_removes_pending(peg: PegView, block_height: u32, bundle: WithdrawalBundle)
    requires
        valid_peg(peg),
        peg.latest_failure() is Ok,
        bundle_wanted(peg, block_height),
        !peg.bundles.dom().contains(bundle.m6id),
    ensures
        pending_stored(peg, block_height, bundle) is Ok,
        pending_removed(pending_stored(peg, block_height, bundle)->Ok_0, block_height) == Ok::<
            PegView,
            Error,
        >(peg),
{
    let next = pending_stored(peg, block_height, bundle)->Ok_0;
    assert(next.latest_failure() == peg.latest_failure());
    let back = pending_removed(next, block_height)->Ok_0;
    lemma_peg_equal(back, peg);
}

} // verus!
