//! What holds of the coins of a block when it is connected and disconnected.

use vstd::prelude::*;

use crate::state::block::coins::{coins_moved, inputs_spent, outputs_free, outputs_made};
use crate::state::block::connect::all_coins_moved;
use crate::state::block::laws::moves_are_new;
use crate::state::block::plain_laws::{have_own_ids, plain_taken_back, taking_back_undoes_moving};
use crate::state::ledger::LedgerView;
use crate::types::transaction::output::FilledOutput;
use crate::types::transaction::{FilledTransaction, OutPoint};
use crate::types::Txid;

verus! {

/// The coins that transactions spend.
pub open spec fn inputs_of(txs: Seq<FilledTransaction>) -> Set<OutPoint>
    decreases txs.len(),
{
    if txs.len() == 0 {
        Set::empty()
    } else {
        inputs_of(txs.drop_last()).union(txs.last().transaction.inputs@.to_set())
    }
}

/// No two transactions spend the same coin, and what each makes is not there.
pub open spec fn moves_fit(ledger: LedgerView, txs: Seq<FilledTransaction>) -> bool
    decreases txs.len(),
{
    txs.len() > 0 ==> {
        let tx = txs.last().transaction;
        &&& moves_fit(ledger, txs.drop_last())
        &&& inputs_of(txs.drop_last()).disjoint(tx.inputs@.to_set())
        &&& match all_coins_moved(ledger, txs.drop_last(), Seq::empty()) {
            Err(_) => true,
            Ok(before) => tx.outputs@.len() <= u32::MAX && outputs_free(
                before,
                tx.id(),
                tx.outputs@.len() as int,
            ),
        }
    }
}

/// The ledger, with no note of how some coins were spent.
pub open spec fn forgetting(ledger: LedgerView, coins: Set<OutPoint>) -> LedgerView {
    LedgerView { stxos: ledger.stxos.remove_keys(coins), ..ledger }
}

/// The same coins can be spent, and the same is noted of spent coins but for
/// some.
spec fn alike(a: LedgerView, b: LedgerView, but: Set<OutPoint>) -> bool {
    &&& a.utxos == b.utxos
    &&& a.utxos_by_address == b.utxos_by_address
    &&& a.stxos.remove_keys(but) == b.stxos.remove_keys(but)
}

proof fn lemma_noted(a: LedgerView, b: LedgerView, but: Set<OutPoint>, o: OutPoint)
    requires
        alike(a, b, but),
        !but.contains(o),
    ensures
        a.stxos.dom().contains(o) <==> b.stxos.dom().contains(o),
        a.stxos.dom().contains(o) ==> a.stxos[o] == b.stxos[o],
{
    let x = a.stxos.remove_keys(but);
    let y = b.stxos.remove_keys(but);
    assert(x.dom().contains(o) <==> a.stxos.dom().contains(o));
    assert(y.dom().contains(o) <==> b.stxos.dom().contains(o));
    if a.stxos.dom().contains(o) {
        assert(x[o] == a.stxos[o]);
        assert(y[o] == b.stxos[o]);
    }
}

proof fn lemma_spent_alike(
    a: LedgerView,
    b: LedgerView,
    but: Set<OutPoint>,
    inputs: Seq<OutPoint>,
    txid: Txid,
)
    requires
        alike(a, b, but),
        inputs_spent(a, inputs, txid) is Ok,
    ensures
        inputs_spent(b, inputs, txid) is Ok,
        alike(
            inputs_spent(a, inputs, txid)->Ok_0,
            inputs_spent(b, inputs, txid)->Ok_0,
            but.difference(inputs.to_set()),
        ),
    decreases inputs.len(),
{
    if inputs.len() == 0 {
        assert(but.difference(inputs.to_set()) =~= but);
    } else {
        let front = inputs.drop_last();
        let o = inputs.last();
        lemma_spent_alike(a, b, but, front, txid);
        let before = but.difference(front.to_set());
        let left = but.difference(inputs.to_set());
        assert(left =~= before.remove(o)) by {
            assert forall|x: OutPoint| inputs.to_set().contains(x) <==> front.to_set().contains(x)
                || x == o by {
                if inputs.contains(x) && x != o {
                    let i = inputs.index_of(x);
                    assert(front[i] == x);
                }
                if front.contains(x) {
                    assert(inputs[front.index_of(x)] == x);
                }
                assert(inputs[inputs.len() - 1] == o);
            }
        }
        let x = inputs_spent(a, front, txid)->Ok_0;
        let y = inputs_spent(b, front, txid)->Ok_0;
        let p = inputs_spent(a, inputs, txid)->Ok_0;
        let q = inputs_spent(b, inputs, txid)->Ok_0;
        assert forall|c: OutPoint| !left.contains(c) implies (p.stxos.dom().contains(c)
            <==> q.stxos.dom().contains(c)) && (p.stxos.dom().contains(c) ==> p.stxos[c]
            == q.stxos[c]) by {
            if c != o {
                lemma_noted(x, y, before, c);
            }
        }
        assert(p.stxos.remove_keys(left) =~= q.stxos.remove_keys(left));
    }
}

proof fn lemma_made_alike(
    a: LedgerView,
    b: LedgerView,
    but: Set<OutPoint>,
    outputs: Seq<FilledOutput>,
    txid: Txid,
)
    requires
        alike(a, b, but),
    ensures
        alike(outputs_made(a, outputs, txid), outputs_made(b, outputs, txid), but),
    decreases outputs.len(),
{
    if outputs.len() > 0 {
        lemma_made_alike(a, b, but, outputs.drop_last(), txid);
    }
}

proof fn lemma_moved_alike(
    a: LedgerView,
    b: LedgerView,
    but: Set<OutPoint>,
    txs: Seq<FilledTransaction>,
)
    requires
        alike(a, b, but),
        all_coins_moved(a, txs, Seq::empty()) is Ok,
    ensures
        all_coins_moved(b, txs, Seq::empty()) is Ok,
        alike(
            all_coins_moved(a, txs, Seq::empty())->Ok_0,
            all_coins_moved(b, txs, Seq::empty())->Ok_0,
            but.difference(inputs_of(txs)),
        ),
    decreases txs.len(),
{
    if txs.len() == 0 {
        assert(but.difference(inputs_of(txs)) =~= but);
    } else {
        let front = txs.drop_last();
        let tx = txs.last();
        lemma_moved_alike(a, b, but, front);
        let x = all_coins_moved(a, front, Seq::empty())->Ok_0;
        let y = all_coins_moved(b, front, Seq::empty())->Ok_0;
        let left = but.difference(inputs_of(front));
        let inputs = tx.transaction.inputs@;
        let txid = tx.transaction.id();
        assert(coins_moved(x, tx) is Ok);
        lemma_spent_alike(x, y, left, inputs, txid);
        let rest = left.difference(inputs.to_set());
        lemma_made_alike(
            inputs_spent(x, inputs, txid)->Ok_0,
            inputs_spent(y, inputs, txid)->Ok_0,
            rest,
            tx.filled()->Some_0,
            txid,
        );
        assert(rest =~= but.difference(inputs_of(txs)));
    }
}

proof fn lemma_spent_notes(ledger: LedgerView, inputs: Seq<OutPoint>, txid: Txid)
    requires
        inputs_spent(ledger, inputs, txid) is Ok,
    ensures
        inputs_spent(ledger, inputs, txid)->Ok_0.stxos.dom().subset_of(
            ledger.stxos.dom().union(inputs.to_set()),
        ),
    decreases inputs.len(),
{
    if inputs.len() > 0 {
        let front = inputs.drop_last();
        lemma_spent_notes(ledger, front, txid);
        let after = inputs_spent(ledger, inputs, txid)->Ok_0;
        assert forall|o: OutPoint| after.stxos.dom().contains(o) implies ledger.stxos.dom().union(
            inputs.to_set(),
        ).contains(o) by {
            assert(inputs[inputs.len() - 1] == inputs.last());
            if front.contains(o) {
                assert(inputs[front.index_of(o)] == o);
            }
        }
    }
}

proof fn lemma_made_notes(ledger: LedgerView, outputs: Seq<FilledOutput>, txid: Txid)
    ensures
        outputs_made(ledger, outputs, txid).stxos == ledger.stxos,
    decreases outputs.len(),
{
    if outputs.len() > 0 {
        lemma_made_notes(ledger, outputs.drop_last(), txid);
    }
}

/// Moving coins notes no more coins as spent than the transactions spend.
proof fn lemma_moved_notes(ledger: LedgerView, txs: Seq<FilledTransaction>)
    requires
        all_coins_moved(ledger, txs, Seq::empty()) is Ok,
    ensures
        all_coins_moved(ledger, txs, Seq::empty())->Ok_0.stxos.dom().subset_of(
            ledger.stxos.dom().union(inputs_of(txs)),
        ),
    decreases txs.len(),
{
    if txs.len() > 0 {
        let front = txs.drop_last();
        let tx = txs.last();
        lemma_moved_notes(ledger, front);
        let before = all_coins_moved(ledger, front, Seq::empty())->Ok_0;
        assert(coins_moved(before, tx) is Ok);
        lemma_spent_notes(before, tx.transaction.inputs@, tx.transaction.id());
        lemma_made_notes(
            inputs_spent(before, tx.transaction.inputs@, tx.transaction.id())->Ok_0,
            tx.filled()->Some_0,
            tx.transaction.id(),
        );
    }
}

/// Where nothing is noted of how the coins were spent before, moves are new.
proof fn lemma_moves_are_new(ledger: LedgerView, txs: Seq<FilledTransaction>, coins: Set<OutPoint>)
    requires
        inputs_of(txs).subset_of(coins),
        moves_fit(ledger, txs),
        all_coins_moved(ledger, txs, Seq::empty()) is Ok,
    ensures
        moves_are_new(forgetting(ledger, coins), txs, Seq::empty()),
    decreases txs.len(),
{
    if txs.len() > 0 {
        let front = txs.drop_last();
        let tx = txs.last().transaction;
        let other = forgetting(ledger, coins);
        assert(inputs_of(front).subset_of(inputs_of(txs)));
        lemma_moves_are_new(ledger, front, coins);
        assert(ledger.stxos.remove_keys(coins) =~= other.stxos.remove_keys(coins));
        lemma_moved_alike(ledger, other, coins, front);
        lemma_moved_notes(other, front);
        let before = all_coins_moved(other, front, Seq::empty())->Ok_0;
        assert forall|i: int| 0 <= i < tx.inputs@.len() implies !before.stxos.dom().contains(
            #[trigger] tx.inputs@[i],
        ) by {
            let o = tx.inputs@[i];
            assert(tx.inputs@.to_set().contains(o));
            assert(inputs_of(txs).contains(o));
            assert(!inputs_of(front).contains(o));
        }
    }
}

/// Taking transactions back gives back all coins. What is forgotten is how the
/// coins that they spent had been spent before, where that was noted.
pub proof fn taking_back_gives_back_coins(ledger: LedgerView, txs: Seq<FilledTransaction>)
    requires
        ledger.index_in_step(),
        have_own_ids(txs),
        moves_fit(ledger, txs),
        all_coins_moved(ledger, txs, Seq::empty()) is Ok,
    ensures
        all_coins_moved(ledger, txs, Seq::empty())->Ok_0.index_in_step(),
        plain_taken_back(all_coins_moved(ledger, txs, Seq::empty())->Ok_0, txs) == Some(
            forgetting(ledger, inputs_of(txs)),
        ),
{
    let coins = inputs_of(txs);
    let other = forgetting(ledger, coins);
    assert(ledger.stxos.remove_keys(coins) =~= other.stxos.remove_keys(coins));
    lemma_moved_alike(ledger, other, coins, txs);
    let a = all_coins_moved(ledger, txs, Seq::empty())->Ok_0;
    let b = all_coins_moved(other, txs, Seq::empty())->Ok_0;
    let none = coins.difference(coins);
    assert(none =~= Set::empty());
    assert(a.stxos.remove_keys(none) =~= a.stxos);
    assert(b.stxos.remove_keys(none) =~= b.stxos);
    assert(a == b);
    lemma_moves_are_new(ledger, txs, coins);
    taking_back_undoes_moving(other, txs);
}

/// Where nothing was noted of the coins that are spent, nothing is forgotten.
pub proof fn nothing_to_forget(ledger: LedgerView, coins: Set<OutPoint>)
    requires
        ledger.stxos.dom().disjoint(coins),
    ensures
        forgetting(ledger, coins) == ledger,
{
    assert(ledger.stxos.remove_keys(coins) =~= ledger.stxos);
}

} // verus!
