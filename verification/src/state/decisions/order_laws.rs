//! What holds of the order of what was claimed.

use vstd::prelude::*;

use crate::bytes::{
    bytes_before, bytes_before_irreflexive, bytes_before_total, bytes_before_transitive,
};
use crate::state::decisions::order::{
    bytes_rank, decision_rank, entry_rank, label_rank, real_rank, text_rank, texts_rank, type_rank,
    with_claim,
};
use crate::state::decisions::types::{Decision, DecisionEntry, DecisionType};
use crate::types::Real;

verus! {

proof fn lemma_bytes(a: Seq<u8>, b: Seq<u8>)
    ensures
        bytes_rank(a, b) == -bytes_rank(b, a),
        bytes_rank(a, b) == 0 <==> a == b,
{
    bytes_before_total(a, b);
    bytes_before_irreflexive(a);
    if bytes_before(a, b) && bytes_before(b, a) {
        bytes_before_transitive(a, b, a);
    }
}

proof fn lemma_texts(a: Seq<String>, b: Seq<String>, i: int)
    requires
        0 <= i,
    ensures
        texts_rank(a, b, i) == -texts_rank(b, a, i),
    decreases a.len() - i,
{
    if i < a.len() && i < b.len() {
        lemma_text(a[i], b[i]);
        lemma_texts(a, b, i + 1);
    }
}

proof fn lemma_text(a: String, b: String)
    ensures
        text_rank(a, b) == -text_rank(b, a),
{
    lemma_bytes(vstd::utf8::encode_utf8(a@), vstd::utf8::encode_utf8(b@));
}

proof fn lemma_label(a: Option<String>, b: Option<String>)
    ensures
        label_rank(a, b) == -label_rank(b, a),
{
    if a is Some && b is Some {
        lemma_text(a->0, b->0);
    }
}

proof fn lemma_type(a: DecisionType, b: DecisionType)
    ensures
        type_rank(a, b) == -type_rank(b, a),
{
    match (a, b) {
        (DecisionType::Category { options: x }, DecisionType::Category { options: y }) => {
            lemma_texts(x@, y@, 0);
        },
        _ => {},
    }
}

proof fn lemma_decision(a: Decision, b: Decision)
    ensures
        decision_rank(a, b) == -decision_rank(b, a),
{
    lemma_bytes(a.market_maker_pubkey_hash@, b.market_maker_pubkey_hash@);
    lemma_type(a.decision_type, b.decision_type);
    lemma_text(a.header, b.header);
    lemma_text(a.description, b.description);
    lemma_label(a.option_0_label, b.option_0_label);
    lemma_label(a.option_1_label, b.option_1_label);
    lemma_texts(a.tags@, b.tags@, 0);
}

/// Of two entries one comes before the other as far as the other comes after it.
pub proof fn entries_have_an_order(a: DecisionEntry, b: DecisionEntry)
    ensures
        entry_rank(a, b) == -entry_rank(b, a),
{
    lemma_bytes(a.claiming_txid.0@, b.claiming_txid.0@);
    if a.decision is Some && b.decision is Some {
        lemma_decision(a.decision->0, b.decision->0);
    }
}

/// Entries that say the same go by their transactions, and one that says nothing comes
/// first.
pub proof fn entries_are_told_apart(a: DecisionEntry, b: DecisionEntry)
    ensures
        a.decision is None && b.decision is Some ==> entry_rank(a, b) < 0,
        a.decision == b.decision && a.claiming_txid.0@ != b.claiming_txid.0@ ==> entry_rank(a, b)
            != 0,
        a.decision is None && b.decision is None && bytes_before(
            a.claiming_txid.0@,
            b.claiming_txid.0@,
        ) ==> entry_rank(a, b) < 0,
{
    lemma_bytes(a.claiming_txid.0@, b.claiming_txid.0@);
    if a.decision is Some && a.decision == b.decision {
        lemma_decision(a.decision->0, b.decision->0);
    }
}

/// Binary decisions come before scaled ones, and these before choices.
pub proof fn types_have_an_order(a: DecisionType, b: DecisionType)
    ensures
        a is Binary && !(b is Binary) ==> type_rank(a, b) < 0,
        a is Scaled && b is Category ==> type_rank(a, b) < 0,
        a is Binary && b is Binary ==> type_rank(a, b) == 0,
{
}

/// Numbers come in their order.
pub proof fn lesser_numbers_come_first(a: Real, b: Real)
    ensures
        a.less(b) ==> real_rank(a, b) < 0,
        real_rank(a, b) == 0 <==> a.bits == b.bits,
{
}

/// A claim that is entered is among the entries, unless one that ranks the same is, and
/// the others stay.
pub proof fn claims_are_entered(list: Seq<DecisionEntry>, entry: DecisionEntry, e: DecisionEntry)
    ensures
        list.contains(e) ==> with_claim(list, entry).contains(e),
        with_claim(list, entry).contains(e) ==> list.contains(e) || e == entry,
        (forall|i: int| 0 <= i < list.len() ==> entry_rank(entry, #[trigger] list[i]) != 0)
            ==> with_claim(list, entry).contains(entry),
    decreases list.len(),
{
    let after = with_claim(list, entry);
    if list.len() == 0 {
        assert(after[0] == entry);
    } else {
        let front = list.drop_last();
        assert(list[list.len() - 1] == list.last());
        if entry_rank(entry, list.last()) < 0 {
            claims_are_entered(front, entry, e);
            let before = with_claim(front, entry);
            assert(after[after.len() - 1] == list.last());
            if list.contains(e) && e != list.last() {
                assert(front[list.index_of(e)] == e);
            }
            if before.contains(e) {
                assert(after[before.index_of(e)] == e);
            }
            if after.contains(e) && e != list.last() {
                assert(before[after.index_of(e)] == e);
            }
            if front.contains(e) {
                assert(list[front.index_of(e)] == e);
            }
            if forall|i: int| 0 <= i < list.len() ==> entry_rank(entry, #[trigger] list[i]) != 0 {
                assert forall|i: int| 0 <= i < front.len() implies entry_rank(
                    entry,
                    #[trigger] front[i],
                ) != 0 by {
                    assert(front[i] == list[i]);
                }
                assert(before.contains(entry));
                assert(after[before.index_of(entry)] == entry);
            }
        } else if entry_rank(entry, list.last()) > 0 {
            assert(after[after.len() - 1] == entry);
            if list.contains(e) {
                assert(after[list.index_of(e)] == e);
            }
            if after.contains(e) && e != entry {
                assert(list[after.index_of(e)] == e);
            }
        }
    }
}

} // verus!
