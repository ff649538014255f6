//! What holds of the signatures of transactions and of the addresses of keys.

use vstd::prelude::*;

use crate::authorization::{
    address_bytes, input_msgs, is_well_signed, refusal, signed_items, signed_with, tagged,
    Authorization, Dst, SigningKey, VerifyingKey,
};
use crate::frost::{frost_verifies, frost_verifying_key, BatchItem};
use crate::types::encoding::Encode;
use crate::types::hashes::blake3_hash;
use crate::types::transaction::{AuthorizedTransaction, Transaction};
use crate::types::Address;

verus! {

/// A transaction is well signed where it has one authorization for each input, and each
/// signature is one of its key on the bytes of the transaction behind a byte of nought.
pub proof fn signatures_cover_the_transaction(transaction: AuthorizedTransaction)
    ensures
        is_well_signed(transaction) <==> {
            let tx = transaction.transaction;
            &&& transaction.authorizations@.len() == tx.inputs@.len()
            &&& tx.encodable()
            &&& forall|i: int|
                0 <= i < transaction.authorizations@.len() ==> frost_verifies(
                    (#[trigger] transaction.authorizations@[i]).verifying_key.0@,
                    seq![0u8] + tx.encoding(),
                    transaction.authorizations@[i].signature.0@,
                )
        },
{
    let tx = transaction.transaction;
    let auths = transaction.authorizations@;
    let items = crate::authorization::signed_on(auths, tagged(Dst::Transaction, tx.encoding()));
    assert(tagged(Dst::Transaction, tx.encoding()) =~= seq![0u8] + tx.encoding());
    assert forall|i: int| 0 <= i < auths.len() implies {
        &&& (#[trigger] items[i]).verifying_key == auths[i].verifying_key.0@
        &&& items[i].msg == seq![0u8] + tx.encoding()
        &&& items[i].signature == auths[i].signature.0@
    } by {}
    if is_well_signed(transaction) {
        assert forall|i: int| 0 <= i < auths.len() implies frost_verifies(
            (#[trigger] auths[i]).verifying_key.0@,
            seq![0u8] + tx.encoding(),
            auths[i].signature.0@,
        ) by {
            assert(items[i].verifying_key == auths[i].verifying_key.0@);
        }
    }
    if transaction.authorizations@.len() == tx.inputs@.len() && tx.encodable() && (forall|i: int|
        0 <= i < auths.len() ==> frost_verifies(
            (#[trigger] auths[i]).verifying_key.0@,
            seq![0u8] + tx.encoding(),
            auths[i].signature.0@,
        )) {
        assert forall|i: int| 0 <= i < items.len() implies frost_verifies(
            (#[trigger] items[i]).verifying_key,
            items[i].msg,
            items[i].signature,
        ) by {
            assert(auths[i].verifying_key.0@ == items[i].verifying_key);
        }
    }
}

/// A signature that stands for another purpose is on other bytes.
pub proof fn purposes_are_told_apart(msg: Seq<u8>)
    ensures
        tagged(Dst::Transaction, msg).len() == msg.len() + 1,
        tagged(Dst::Transaction, msg)[0] == 0,
        tagged(Dst::Arbitrary, msg)[0] == 255,
        tagged(Dst::Arbitrary, msg).skip(1) == msg,
        tagged(Dst::Transaction, msg).skip(1) == msg,
{
    assert(tagged(Dst::Arbitrary, msg).skip(1) =~= msg);
    assert(tagged(Dst::Transaction, msg).skip(1) =~= msg);
}

/// The address of a key is the first twenty bytes of its hash.
pub proof fn addresses_are_hashes(key: VerifyingKey, i: int)
    requires
        blake3_hash(key.0@).len() == 32,
        0 <= i < 20,
    ensures
        address_bytes(key).len() == 20,
        address_bytes(key)[i] == blake3_hash(key.0@)[i],
{
}

/// Only the key of an address signs for it.
pub proof fn addresses_are_signed_for_by_their_key(address: Address, key: SigningKey)
    ensures
        refusal((address, key)) is None <==> {
            &&& frost_verifying_key(key.0@) is Some
            &&& address.0@ == blake3_hash(frost_verifying_key(key.0@)->0).subrange(0, 20)
        },
{
}

/// Each signature is checked against the message of its own place.
pub proof fn signatures_keep_their_place(
    authorizations: Seq<Authorization>,
    msgs: Seq<Seq<u8>>,
    i: int,
)
    requires
        0 <= i < authorizations.len(),
    ensures
        signed_with(authorizations, msgs).len() == authorizations.len(),
        signed_with(authorizations, msgs)[i].msg == msgs[i],
        signed_with(authorizations, msgs)[i].verifying_key == authorizations[i].verifying_key.0@,
        signed_with(authorizations, msgs)[i].signature == authorizations[i].signature.0@,
{
}

/// The signatures of a block are on the bytes of their transactions: the last one's
/// inputs come last, and as many messages as inputs are its own.
pub proof fn blocks_are_signed_in_order(txs: Seq<Transaction>, tx: Transaction, i: int)
    ensures
        ({
            let before = input_msgs(txs);
            let after = input_msgs(txs.push(tx));
            &&& after.len() == before.len() + tx.inputs@.len()
            &&& 0 <= i < before.len() ==> after[i] == before[i]
            &&& before.len() <= i < after.len() ==> after[i] == seq![0u8] + tx.encoding()
        }),
{
    assert(txs.push(tx).drop_last() =~= txs);
}

/// What goes into a batch is what is checked.
pub proof fn batches_are_checked_as_they_are(items: Seq<BatchItem>, i: int)
    requires
        0 <= i < items.len(),
    ensures
        signed_items(items).len() == items.len(),
        signed_items(items)[i].verifying_key == items[i].verifying_key@,
        signed_items(items)[i].msg == items[i].msg@,
        signed_items(items)[i].signature == items[i].signature@,
{
}

} // verus!
