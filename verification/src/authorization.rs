//! Keys, signatures, and who may spend what.

use vstd::prelude::*;
use vstd::std_specs::cmp::PartialEqSpecImpl;

use crate::bytes::{
    append, boxed, le64, lemma_array_equal, push_le64, same_bytes, to_vec,
};
use crate::frost::{
    frost_batch_verifies, frost_signature_decodes, frost_verifies, frost_verifying_key,
    is_signature, keys_of, msgs_of, random_key, sign_with, signatures_of, verify_batch, verify_one,
    verifying_key_of, BatchItem,
};
use crate::hex::{all_hex, decode, encode, hex_bytes, hex_text, without_prefix};
use crate::types::block::Body;
use crate::types::encoding::Encode;
use crate::types::hashes::{blake3_hash, blake3_keyed_hash, hash, keyed_hash};
use crate::types::transaction::{AuthorizedTransaction, Transaction};
use crate::types::{Address, Duplicate};

verus! {

/// A verifying key, held by its bytes: a compressed Ristretto point.
#[derive(Clone, Copy, Debug, Eq, PartialOrd, Ord, Hash)]
pub struct VerifyingKey(pub [u8; 32]);

impl PartialEq for VerifyingKey {
    fn eq(&self, other: &Self) -> (r: bool) {
        same_bytes(&self.0, &other.0)
    }
}

impl PartialEqSpecImpl for VerifyingKey {
    open spec fn obeys_eq_spec() -> bool {
        true
    }

    open spec fn eq_spec(&self, other: &Self) -> bool {
        *self == *other
    }
}

/// A signature, held by its bytes: a compressed Ristretto point, then a scalar.
#[derive(Clone, Copy, Debug, Eq, PartialOrd, Ord, Hash)]
pub struct Signature(pub [u8; 64]);

impl PartialEq for Signature {
    fn eq(&self, other: &Self) -> (r: bool) {
        same_bytes(&self.0, &other.0)
    }
}

impl PartialEqSpecImpl for Signature {
    open spec fn obeys_eq_spec() -> bool {
        true
    }

    open spec fn eq_spec(&self, other: &Self) -> bool {
        *self == *other
    }
}

/// A signature with the key that it is made with.
#[derive(Clone, Copy, Debug, PartialEq, Eq)]
pub struct Authorization {
    pub verifying_key: VerifyingKey,
    pub signature: Signature,
}

impl Duplicate for Authorization {
    fn duplicate(&self) -> (r: Self) {
        *self
    }
}

/// The address of a key: the first 20 bytes of the hash of the key.
pub open spec fn address_bytes(verifying_key: VerifyingKey) -> Seq<u8> {
    blake3_hash(verifying_key.0@).subrange(0, 20)
}

pub open spec fn address_of(verifying_key: VerifyingKey) -> Address {
    choose|address: Address| address.0@ == address_bytes(verifying_key)
}

pub fn get_address(verifying_key: &VerifyingKey) -> (r: Address)
    ensures
        r.0@ == address_bytes(*verifying_key),
        r == address_of(*verifying_key),
{
    let digest = hash(verifying_key.0.as_slice());
    let mut output = [0u8; 20];
    let mut i: usize = 0;
    while i < 20
        invariant
            i <= 20,
            forall|j: int| 0 <= j < i ==> output@[j] == digest@[j],
        decreases 20 - i,
    {
        output[i] = digest[i];
        i += 1;
    }
    assert(output@ =~= address_bytes(*verifying_key));
    let address = Address(output);
    proof {
        let other = address_of(*verifying_key);
        assert(other.0@ == address.0@);
        lemma_array_equal(other.0, address.0);
    }
    address
}

impl Authorization {
    pub fn get_address(&self) -> (r: Address)
        ensures
            r.0@ == address_bytes(self.verifying_key),
            r == address_of(self.verifying_key),
    {
        get_address(&self.verifying_key)
    }
}

/// A text is no signature: it is not the digits of 64 bytes, or the bytes are
/// no signature.
#[derive(Clone, Copy, Debug, PartialEq, Eq, Structural)]
pub struct SignatureTextError;

impl Signature {
    pub fn to_bytes(self) -> (r: [u8; 64])
        ensures
            r == self.0,
    {
        self.0
    }

    /// The digits of the bytes.
    pub fn to_hex(&self) -> (r: String)
        ensures
            r@ == hex_text(self.0@),
    {
        encode(self.0.as_slice())
    }

    /// What the digits of a signature stand for.
    pub open spec fn parsed(text: Seq<u8>) -> Option<Seq<u8>> {
        let digits = without_prefix(text);
        if all_hex(digits) && hex_bytes(digits).len() == 64 && frost_signature_decodes(
            hex_bytes(digits),
        ) {
            Some(hex_bytes(digits))
        } else {
            None
        }
    }

    pub fn from_hex(text: &[u8]) -> (r: Result<Self, SignatureTextError>)
        ensures
            match r {
                Ok(signature) => Signature::parsed(text@) == Some(signature.0@),
                Err(_) => Signature::parsed(text@) is None,
            },
    {
        let bytes = match decode(text) {
            Err(_) => return Err(SignatureTextError),
            Ok(bytes) => bytes,
        };
        Signature::from_bytes(bytes.as_slice())
    }

    /// The signature that the bytes are.
    pub fn from_bytes(bytes: &[u8]) -> (r: Result<Self, SignatureTextError>)
        ensures
            match r {
                Ok(signature) => signature.0@ == bytes@ && frost_signature_decodes(bytes@),
                Err(_) => bytes@.len() != 64 || !frost_signature_decodes(bytes@),
            },
    {
        if bytes.len() != 64 {
            return Err(SignatureTextError);
        }
        let mut array = [0u8; 64];
        let mut i: usize = 0;
        while i < 64
            invariant
                i <= 64,
                bytes@.len() == 64,
                forall|j: int| 0 <= j < i ==> array@[j] == bytes@[j],
            decreases 64 - i,
        {
            array[i] = bytes[i];
            i += 1;
        }
        assert(array@ =~= bytes@);
        if is_signature(&array) {
            Ok(Signature(array))
        } else {
            Err(SignatureTextError)
        }
    }
}

/// A signing key, held by the bytes of its scalar. Bytes that are no scalar, or
/// the zero, sign nothing.
pub struct SigningKey(pub [u8; 32]);

impl SigningKey {
    /// The key that verifies what this one signs.
    pub fn verifying_key(&self) -> (r: Option<VerifyingKey>)
        ensures
            match r {
                Some(key) => frost_verifying_key(self.0@) == Some(key.0@),
                None => frost_verifying_key(self.0@) is None,
            },
    {
        match verifying_key_of(&self.0) {
            Some(bytes) => Some(VerifyingKey(bytes)),
            None => None,
        }
    }
}

/// What a message is signed for. It keeps messages of different kinds apart.
#[derive(Clone, Copy, Debug, PartialEq, Eq, Structural)]
pub enum Dst {
    Transaction,
    /// Messages that have no meaning in the protocol.
    Arbitrary,
}

impl Dst {
    pub open spec fn tag(self) -> u8 {
        match self {
            Dst::Transaction => 0,
            Dst::Arbitrary => 255,
        }
    }

    pub fn as_u8(self) -> (r: u8)
        ensures
            r == self.tag(),
    {
        match self {
            Dst::Transaction => 0,
            Dst::Arbitrary => 255,
        }
    }
}

#[derive(Clone, Copy, Debug)]
pub enum Error {
    /// The transaction has no encoding.
    Encode,
    SignatureVerification,
    /// The bytes are no signing key.
    SigningKey,
    WrongKeyForAddress { address: Address, hash_verifying_key: Address },
    SignatureCountMismatch { expected: usize, actual: usize },
}

/// What is signed for a message: its tag, then the message.
pub open spec fn tagged(dst: Dst, msg: Seq<u8>) -> Seq<u8> {
    seq![dst.tag()] + msg
}

/// A message is not the same under two tags.
pub proof fn tags_separate_messages(a: Dst, b: Dst, m: Seq<u8>, n: Seq<u8>)
    requires
        a != b,
    ensures
        tagged(a, m) != tagged(b, n),
{
    assert(tagged(a, m)[0] == a.tag());
    assert(tagged(b, n)[0] == b.tag());
}

fn tag_message(dst: Dst, msg: &[u8]) -> (r: Vec<u8>)
    ensures
        r@ == tagged(dst, msg@),
{
    let mut buf: Vec<u8> = Vec::new();
    buf.push(dst.as_u8());
    append(&mut buf, msg);
    assert(buf@ =~= tagged(dst, msg@));
    buf
}

/// Signs a message with a tag. There is no signature if the bytes of the key
/// are no key.
pub fn sign(signing_key: &SigningKey, dst: Dst, msg: &[u8]) -> (r: Option<Signature>)
    ensures
        r is Some == frost_verifying_key(signing_key.0@) is Some,
        match r {
            Some(signature) => {
                &&& frost_signature_decodes(signature.0@)
                &&& frost_verifies(
                    frost_verifying_key(signing_key.0@)->Some_0,
                    tagged(dst, msg@),
                    signature.0@,
                )
            },
            None => true,
        },
{
    let buf = tag_message(dst, msg);
    match sign_with(&signing_key.0, buf.as_slice()) {
        Some(bytes) => Some(Signature(bytes)),
        None => None,
    }
}

/// Verifies a message with a tag.
pub fn verify(signature: Signature, verifying_key: &VerifyingKey, dst: Dst, msg: &[u8]) -> (r: bool)
    ensures
        r == frost_verifies(verifying_key.0@, tagged(dst, msg@), signature.0@),
{
    let buf = tag_message(dst, msg);
    verify_one(&verifying_key.0, buf.as_slice(), &signature.0)
}

/// What is signed for a transaction.
fn tx_msg_canonical(tx: &Transaction) -> (r: Result<Vec<u8>, Error>)
    ensures
        match r {
            Ok(buf) => tx.encodable() && buf@ == tagged(Dst::Transaction, tx.encoding()),
            Err(e) => !tx.encodable() && e is Encode,
        },
{
    let mut buf: Vec<u8> = Vec::new();
    buf.push(Dst::Transaction.as_u8());
    assert(buf@ =~= seq![0u8]);
    match tx.encode(&mut buf) {
        Err(_) => Err(Error::Encode),
        Ok(()) => Ok(buf),
    }
}

/// Signs a transaction.
pub fn sign_tx(signing_key: &SigningKey, transaction: &Transaction) -> (r: Result<Signature, Error>)
    ensures
        match r {
            Ok(signature) => {
                &&& transaction.encodable()
                &&& frost_verifying_key(signing_key.0@) is Some
                &&& frost_signature_decodes(signature.0@)
                &&& frost_verifies(
                    frost_verifying_key(signing_key.0@)->Some_0,
                    tagged(Dst::Transaction, transaction.encoding()),
                    signature.0@,
                )
            },
            Err(e) => if !transaction.encodable() {
                e is Encode
            } else {
                frost_verifying_key(signing_key.0@) is None && e is SigningKey
            },
        },
{
    match tx_msg_canonical(transaction) {
        Err(e) => Err(e),
        Ok(buf) => match sign_with(&signing_key.0, buf.as_slice()) {
            None => Err(Error::SigningKey),
            Some(bytes) => Ok(Signature(bytes)),
        },
    }
}

/// The actor proof of a transaction holds, if it has one.
pub open spec fn actor_proof_holds(shown: Option<Authorization>, tx: Transaction) -> Result<
    (),
    Error,
> {
    match shown {
        None => Ok(()),
        Some(shown) => if !tx.encodable() {
            Err(Error::Encode)
        } else if frost_verifies(
            shown.verifying_key.0@,
            tagged(Dst::Transaction, tx.encoding()),
            shown.signature.0@,
        ) {
            Ok(())
        } else {
            Err(Error::SignatureVerification)
        },
    }
}

fn check_actor_proof(shown: &Option<Authorization>, tx: &Transaction) -> (r: Result<(), Error>)
    ensures
        r == actor_proof_holds(*shown, *tx),
{
    match shown {
        None => Ok(()),
        Some(shown) => match tx_msg_canonical(tx) {
            Err(e) => Err(e),
            Ok(buf) => if verify_one(
                &shown.verifying_key.0,
                buf.as_slice(),
                &shown.signature.0,
            ) {
                Ok(())
            } else {
                Err(Error::SignatureVerification)
            },
        },
    }
}

/// Checks the proof of who acts by a transaction, if there is one.
pub fn verify_actor_proof(transaction: &AuthorizedTransaction) -> (r: Result<(), Error>)
    ensures
        r == actor_proof_holds(transaction.actor_proof, transaction.transaction),
{
    check_actor_proof(&transaction.actor_proof, &transaction.transaction)
}

/// What batches are blinded by: a key that nobody else knows. It may serve for
/// several batches.
#[derive(Clone, Copy)]
pub struct BatchVerificationContext {
    mac_key: [u8; 32],
}

impl BatchVerificationContext {
    pub closed spec fn key(self) -> Seq<u8> {
        self.mac_key@
    }

    /// A context with a key that is drawn at random.
    pub fn new() -> (r: Self)
        ensures
            r.key().len() == 32,
    {
        BatchVerificationContext::with_key(random_key())
    }

    pub fn with_key(mac_key: [u8; 32]) -> (r: Self)
        ensures
            r.key() == mac_key@,
    {
        BatchVerificationContext { mac_key }
    }
}

/// A signature with its key and its message.
pub struct Signed {
    pub verifying_key: Seq<u8>,
    pub msg: Seq<u8>,
    pub signature: Seq<u8>,
}

/// What a batch says.
pub open spec fn signed_items(items: Seq<BatchItem>) -> Seq<Signed> {
    Seq::new(
        items.len(),
        |i: int|
            Signed {
                verifying_key: items[i].verifying_key@,
                msg: items[i].msg@,
                signature: items[i].signature@,
            },
    )
}

/// What a batch is hashed by: for each item its key, its signature and its
/// message.
pub open spec fn transcript(items: Seq<Signed>) -> Seq<u8>
    decreases items.len(),
{
    if items.len() == 0 {
        Seq::empty()
    } else {
        transcript(items.drop_last()) + items.last().verifying_key + items.last().signature
            + items.last().msg
    }
}

/// The seed of a batch: a hash of its transcript and its size, under the key of
/// the context.
pub open spec fn batch_seed(key: Seq<u8>, items: Seq<Signed>) -> Seq<u8> {
    blake3_keyed_hash(key, transcript(items) + le64(items.len() as u64))
}

/// A batch passes.
pub open spec fn batch_passes(key: Seq<u8>, items: Seq<Signed>) -> bool {
    frost_batch_verifies(
        batch_seed(key, items),
        Seq::new(items.len(), |i: int| items[i].verifying_key),
        Seq::new(items.len(), |i: int| items[i].msg),
        Seq::new(items.len(), |i: int| items[i].signature),
    )
}

/// Every signature of a batch verifies by itself.
pub open spec fn all_verify(items: Seq<Signed>) -> bool {
    forall|i: int|
        0 <= i < items.len() ==> frost_verifies(
            (#[trigger] items[i]).verifying_key,
            items[i].msg,
            items[i].signature,
        )
}

impl BatchVerificationContext {
    /// The seed of a batch.
    pub fn seed(&self, items: &Vec<BatchItem>) -> (r: [u8; 32])
        ensures
            r@ == batch_seed(self.key(), signed_items(items@)),
    {
        let ghost all = signed_items(items@);
        let mut buf: Vec<u8> = Vec::new();
        let mut i: usize = 0;
        assert(all.subrange(0, 0) =~= Seq::empty());
        while i < items.len()
            invariant
                i <= items@.len(),
                all == signed_items(items@),
                buf@ == transcript(all.subrange(0, i as int)),
            decreases items@.len() - i,
        {
            assert(all.subrange(0, i + 1).drop_last() =~= all.subrange(0, i as int));
            append(&mut buf, items[i].verifying_key.as_slice());
            append(&mut buf, items[i].signature.as_slice());
            append(&mut buf, items[i].msg.as_slice());
            i += 1;
        }
        assert(all.subrange(0, i as int) =~= all);
        push_le64(&mut buf, items.len() as u64);
        keyed_hash(&self.mac_key, buf.as_slice())
    }
}

fn run_batch(ctxt: &BatchVerificationContext, items: &Vec<BatchItem>) -> (r: bool)
    ensures
        r == batch_passes(ctxt.key(), signed_items(items@)),
        items@.len() == 0 ==> !r,
        items@.len() > 0 && all_verify(signed_items(items@)) ==> r,
{
    let ghost all = signed_items(items@);
    let seed = ctxt.seed(items);
    proof {
        assert(keys_of(items@) =~= Seq::new(all.len(), |k: int| all[k].verifying_key));
        assert(msgs_of(items@) =~= Seq::new(all.len(), |k: int| all[k].msg));
        assert(signatures_of(items@) =~= Seq::new(all.len(), |k: int| all[k].signature));
        if all_verify(all) {
            assert forall|k: int| 0 <= k < items@.len() implies frost_verifies(
                (#[trigger] items@[k]).verifying_key@,
                items@[k].msg@,
                items@[k].signature@,
            ) by {
                assert(frost_verifies(all[k].verifying_key, all[k].msg, all[k].signature));
            }
        }
    }
    verify_batch(seed, items)
}

/// Signatures, each with the message that it is on.
pub open spec fn signed_with(authorizations: Seq<Authorization>, msgs: Seq<Seq<u8>>) -> Seq<
    Signed,
> {
    Seq::new(
        authorizations.len(),
        |i: int|
            Signed {
                verifying_key: authorizations[i].verifying_key.0@,
                msg: msgs[i],
                signature: authorizations[i].signature.0@,
            },
    )
}

/// Signatures that are all on one message.
pub open spec fn signed_on(authorizations: Seq<Authorization>, msg: Seq<u8>) -> Seq<Signed> {
    signed_with(authorizations, Seq::new(authorizations.len(), |i: int| msg))
}

/// Whether the signatures of a transaction verify.
pub open spec fn transaction_verifies(key: Seq<u8>, transaction: AuthorizedTransaction) -> Result<
    (),
    Error,
> {
    let tx = transaction.transaction;
    let authorizations = transaction.authorizations@;
    if authorizations.len() != tx.inputs@.len() {
        Err(
            Error::SignatureCountMismatch {
                expected: tx.inputs@.len() as usize,
                actual: authorizations.len() as usize,
            },
        )
    } else if authorizations.len() == 0 {
        Ok(())
    } else if !tx.encodable() {
        Err(Error::Encode)
    } else if batch_passes(
        key,
        signed_on(authorizations, tagged(Dst::Transaction, tx.encoding())),
    ) {
        Ok(())
    } else {
        Err(Error::SignatureVerification)
    }
}

/// The signatures of a transaction are as many as its inputs, and each
/// verifies by itself.
pub open spec fn is_well_signed(transaction: AuthorizedTransaction) -> bool {
    let tx = transaction.transaction;
    &&& transaction.authorizations@.len() == tx.inputs@.len()
    &&& tx.encodable()
    &&& all_verify(
        signed_on(transaction.authorizations@, tagged(Dst::Transaction, tx.encoding())),
    )
}

/// Verifies the signatures of a transaction, one for each input, in a batch.
pub fn verify_authorized_transaction(
    ctxt: &BatchVerificationContext,
    transaction: &AuthorizedTransaction,
) -> (r: Result<(), Error>)
    ensures
        r == transaction_verifies(ctxt.key(), *transaction),
        is_well_signed(*transaction) ==> r is Ok,
{
    let inputs: usize = transaction.transaction.inputs.len();
    let count: usize = transaction.authorizations.len();
    if count != inputs {
        return Err(Error::SignatureCountMismatch { expected: inputs, actual: count });
    }
    if count == 0 {
        return Ok(());
    }
    let msg = match tx_msg_canonical(&transaction.transaction) {
        Err(e) => return Err(e),
        Ok(msg) => msg,
    };
    let ghost all = signed_on(transaction.authorizations@, msg@);
    let mut items: Vec<BatchItem> = Vec::new();
    let mut i: usize = 0;
    while i < count
        invariant
            i <= count == transaction.authorizations@.len(),
            all == signed_on(transaction.authorizations@, msg@),
            signed_items(items@) == all.subrange(0, i as int),
        decreases count - i,
    {
        let authorization = &transaction.authorizations[i];
        let ghost before = items@;
        items.push(
            BatchItem {
                verifying_key: authorization.verifying_key.0,
                msg: to_vec(msg.as_slice()),
                signature: authorization.signature.0,
            },
        );
        proof {
            assert(signed_items(items@) =~= signed_items(before).push(all[i as int]));
            assert(all.subrange(0, i + 1) =~= all.subrange(0, i as int).push(all[i as int]));
        }
        i += 1;
    }
    assert(all.subrange(0, i as int) =~= all);
    if run_batch(ctxt, &items) {
        Ok(())
    } else {
        Err(Error::SignatureVerification)
    }
}

/// Verifies the signatures of a transaction and the proof of who acts by it.
pub fn verify_transaction(
    ctxt: &BatchVerificationContext,
    transaction: &AuthorizedTransaction,
) -> (r: Result<(), Error>)
    ensures
        r == match transaction_verifies(ctxt.key(), *transaction) {
            Err(e) => Err::<(), Error>(e),
            Ok(()) => actor_proof_holds(transaction.actor_proof, transaction.transaction),
        },
        is_well_signed(*transaction) ==> r == actor_proof_holds(
            transaction.actor_proof,
            transaction.transaction,
        ),
{
    match verify_authorized_transaction(ctxt, transaction) {
        Err(e) => Err(e),
        Ok(()) => verify_actor_proof(transaction),
    }
}

/// Signs a transaction with the key of each address.
pub fn authorize(addresses_signing_keys: &Vec<(Address, SigningKey)>, transaction: Transaction) -> (r:
    Result<AuthorizedTransaction, Error>)
    ensures
        match r {
            Ok(authorized) => {
                &&& transaction.encodable()
                &&& authorized.transaction == transaction
                &&& authorized.actor_proof is None
                &&& authorized.authorizations@.len() == addresses_signing_keys@.len()
                &&& all_verify(
                    signed_on(
                        authorized.authorizations@,
                        tagged(Dst::Transaction, transaction.encoding()),
                    ),
                )
                &&& forall|i: int|
                    0 <= i < addresses_signing_keys@.len() ==> {
                        let (address, key) = #[trigger] addresses_signing_keys@[i];
                        &&& frost_verifying_key(key.0@) == Some(
                            authorized.authorizations@[i].verifying_key.0@,
                        )
                        &&& address.0@ == address_bytes(authorized.authorizations@[i].verifying_key)
                    }
            },
            Err(e) => {
                ||| !transaction.encodable() && e is Encode
                ||| transaction.encodable() && exists|i: int| #[trigger]
                    is_first_refused(addresses_signing_keys@, i) && Some(e) == refusal(
                        addresses_signing_keys@[i],
                    )
            },
        },
{
    let msg = match tx_msg_canonical(&transaction) {
        Err(e) => return Err(e),
        Ok(msg) => msg,
    };
    let mut authorizations: Vec<Authorization> = Vec::new();
    let mut i: usize = 0;
    while i < addresses_signing_keys.len()
        invariant
            i <= addresses_signing_keys@.len(),
            transaction.encodable(),
            msg@ == tagged(Dst::Transaction, transaction.encoding()),
            authorizations@.len() == i,
            all_verify(signed_on(authorizations@, msg@)),
            forall|j: int|
                0 <= j < i ==> {
                    let (address, key) = #[trigger] addresses_signing_keys@[j];
                    &&& frost_verifying_key(key.0@) == Some(
                        authorizations@[j].verifying_key.0@,
                    )
                    &&& address.0@ == address_bytes(authorizations@[j].verifying_key)
                },
        decreases addresses_signing_keys@.len() - i,
    {
        let address = addresses_signing_keys[i].0;
        let signing_key = &addresses_signing_keys[i].1;
        let verifying_key = match signing_key.verifying_key() {
            None => {
                assert(is_first_refused(addresses_signing_keys@, i as int));
                return Err(Error::SigningKey);
            },
            Some(key) => key,
        };
        let hash_verifying_key = get_address(&verifying_key);
        if address != hash_verifying_key {
            proof {
                let pair = addresses_signing_keys@[i as int];
                if pair.0.0@ == address_bytes(verifying_key) {
                    lemma_array_equal(pair.0.0, hash_verifying_key.0);
                }
                lemma_array_equal(
                    address_with(address_bytes(verifying_key)).0,
                    hash_verifying_key.0,
                );
                assert(is_first_refused(addresses_signing_keys@, i as int));
            }
            return Err(Error::WrongKeyForAddress { address, hash_verifying_key });
        }
        let signature = match sign_with(&signing_key.0, msg.as_slice()) {
            None => {
                return Err(Error::SigningKey);
            },
            Some(bytes) => Signature(bytes),
        };
        let ghost before = authorizations@;
        authorizations.push(Authorization { verifying_key, signature });
        proof {
            let all = signed_on(authorizations@, msg@);
            assert forall|j: int| 0 <= j < all.len() implies frost_verifies(
                (#[trigger] all[j]).verifying_key,
                all[j].msg,
                all[j].signature,
            ) by {
                if j < i {
                    assert(all[j] == signed_on(before, msg@)[j]);
                }
            }
        }
        i += 1;
    }
    Ok(
        AuthorizedTransaction {
            transaction,
            authorizations: boxed(authorizations),
            actor_proof: None,
        },
    )
}

/// Why a key cannot sign for an address: the bytes are no key, or the key is
/// that of another address.
pub open spec fn refusal(pair: (Address, SigningKey)) -> Option<Error> {
    match frost_verifying_key(pair.1.0@) {
        None => Some(Error::SigningKey),
        Some(key) => if pair.0.0@ == blake3_hash(key).subrange(0, 20) {
            None
        } else {
            Some(
                Error::WrongKeyForAddress {
                    address: pair.0,
                    hash_verifying_key: address_with(blake3_hash(key).subrange(0, 20)),
                },
            )
        },
    }
}

/// The address with some bytes.
pub open spec fn address_with(bytes: Seq<u8>) -> Address {
    choose|address: Address| address.0@ == bytes
}

/// Of some pairs, this is the first that is refused.
pub open spec fn is_first_refused(pairs: Seq<(Address, SigningKey)>, i: int) -> bool {
    &&& 0 <= i < pairs.len()
    &&& refusal(pairs[i]) is Some
    &&& forall|j: int| 0 <= j < i ==> refusal(#[trigger] pairs[j]) is None
}

/// How many signatures are verified in one batch.
pub const CHUNK_SIZE: usize = 16_384;

/// What is signed for each input of some transactions, in their order.
pub open spec fn input_msgs(txs: Seq<Transaction>) -> Seq<Seq<u8>>
    decreases txs.len(),
{
    if txs.len() == 0 {
        Seq::empty()
    } else {
        input_msgs(txs.drop_last()) + Seq::new(
            txs.last().inputs@.len(),
            |i: int| tagged(Dst::Transaction, txs.last().encoding()),
        )
    }
}

/// The batches from a place on pass.
pub open spec fn chunks_pass(key: Seq<u8>, items: Seq<Signed>, from: int) -> bool
    decreases
            if from < items.len() {
                items.len() - from
            } else {
                0
            },
{
    from >= items.len() || (batch_passes(key, chunk_at(items, from)) && chunks_pass(
        key,
        items,
        from + CHUNK_SIZE,
    ))
}

/// The batch that starts at a place.
pub open spec fn chunk_at(items: Seq<Signed>, from: int) -> Seq<Signed> {
    items.subrange(
        from,
        if from + CHUNK_SIZE <= items.len() {
            from + CHUNK_SIZE
        } else {
            items.len() as int
        },
    )
}

/// How many inputs some transactions have.
pub open spec fn input_count(txs: Seq<Transaction>) -> nat
    decreases txs.len(),
{
    if txs.len() == 0 {
        0
    } else {
        input_count(txs.drop_last()) + txs.last().inputs@.len()
    }
}

proof fn lemma_input_msgs(txs: Seq<Transaction>)
    ensures
        input_msgs(txs).len() == input_count(txs),
    decreases txs.len(),
{
    if txs.len() > 0 {
        lemma_input_msgs(txs.drop_last());
    }
}

pub fn count_inputs(txs: &Vec<Transaction>) -> (r: u128)
    ensures
        r == input_count(txs@),
{
    let mut total: u128 = 0;
    let mut i: usize = 0;
    assert(txs@.subrange(0, 0) =~= Seq::empty());
    while i < txs.len()
        invariant
            i <= txs@.len(),
            total == input_count(txs@.subrange(0, i as int)),
            total <= i * 0xffff_ffff_ffff_ffff,
        decreases txs@.len() - i,
    {
        proof {
            assert(txs@.subrange(0, i + 1).drop_last() =~= txs@.subrange(0, i as int));
        }
        total = total + txs[i].inputs.len() as u128;
        i += 1;
    }
    assert(txs@.subrange(0, i as int) =~= txs@);
    total
}

fn copy_chunk(items: &Vec<BatchItem>, from: usize, to: usize) -> (r: Vec<BatchItem>)
    requires
        from <= to <= items@.len(),
    ensures
        signed_items(r@) == signed_items(items@).subrange(from as int, to as int),
{
    let ghost all = signed_items(items@);
    let mut r: Vec<BatchItem> = Vec::new();
    let mut i: usize = from;
    assert(signed_items(r@) =~= all.subrange(from as int, from as int));
    while i < to
        invariant
            from <= i <= to <= items@.len(),
            all == signed_items(items@),
            signed_items(r@) == all.subrange(from as int, i as int),
        decreases to - i,
    {
        let ghost before = r@;
        r.push(
            BatchItem {
                verifying_key: items[i].verifying_key,
                msg: to_vec(items[i].msg.as_slice()),
                signature: items[i].signature,
            },
        );
        proof {
            assert(signed_items(r@) =~= signed_items(before).push(all[i as int]));
            assert(all.subrange(from as int, i + 1) =~= all.subrange(from as int, i as int).push(
                all[i as int],
            ));
        }
        i += 1;
    }
    r
}

fn run_chunks(ctxt: &BatchVerificationContext, items: &Vec<BatchItem>) -> (r: bool)
    ensures
        r == chunks_pass(ctxt.key(), signed_items(items@), 0),
        all_verify(signed_items(items@)) ==> r,
{
    let ghost key = ctxt.key();
    let ghost all = signed_items(items@);
    let n: usize = items.len();
    let mut from: usize = 0;
    while from < n
        invariant
            from <= n == items@.len(),
            all == signed_items(items@),
            key == ctxt.key(),
            chunks_pass(key, all, 0) == chunks_pass(key, all, from as int),
        decreases n - from,
    {
        let to: usize = if n - from >= CHUNK_SIZE {
            from + CHUNK_SIZE
        } else {
            n
        };
        let chunk = copy_chunk(items, from, to);
        let ghost part = signed_items(chunk@);
        proof {
            assert(part == chunk_at(all, from as int));
            if all_verify(all) {
                assert forall|i: int| 0 <= i < part.len() implies frost_verifies(
                    (#[trigger] part[i]).verifying_key,
                    part[i].msg,
                    part[i].signature,
                ) by {
                    assert(part[i] == all[from + i]);
                }
            }
        }
        if !run_batch(ctxt, &chunk) {
            return false;
        }
        proof {
            if to == n {
                assert(chunks_pass(key, all, from + CHUNK_SIZE));
                assert(chunks_pass(key, all, n as int));
            }
        }
        from = to;
    }
    true
}

/// Every transaction has an encoding.
pub open spec fn all_encodable(txs: Seq<Transaction>) -> bool {
    forall|i: int| 0 <= i < txs.len() ==> (#[trigger] txs[i]).encodable()
}

fn list_msgs(txs: &Vec<Transaction>) -> (r: Result<Vec<Vec<u8>>, Error>)
    ensures
        match r {
            Ok(msgs) => {
                &&& all_encodable(txs@)
                &&& msgs@.len() == input_msgs(txs@).len()
                &&& forall|i: int| 0 <= i < msgs@.len() ==> (#[trigger] msgs@[i])@ == input_msgs(txs@)[i]
            },
            Err(e) => e is Encode && !all_encodable(txs@),
        },
{
    let mut msgs: Vec<Vec<u8>> = Vec::new();
    let mut i: usize = 0;
    assert(txs@.subrange(0, 0) =~= Seq::empty());
    while i < txs.len()
        invariant
            i <= txs@.len(),
            forall|k: int| 0 <= k < i ==> (#[trigger] txs@[k]).encodable(),
            msgs@.len() == input_msgs(txs@.subrange(0, i as int)).len(),
            forall|k: int|
                0 <= k < msgs@.len() ==> (#[trigger] msgs@[k])@ == input_msgs(
                    txs@.subrange(0, i as int),
                )[k],
        decreases txs@.len() - i,
    {
        let tx = &txs[i];
        let msg = match tx_msg_canonical(tx) {
            Err(e) => {
                assert(!txs@[i as int].encodable());
                return Err(e);
            },
            Ok(msg) => msg,
        };
        let ghost before = input_msgs(txs@.subrange(0, i as int));
        let ghost after = input_msgs(txs@.subrange(0, i + 1));
        proof {
            assert(txs@.subrange(0, i + 1).drop_last() =~= txs@.subrange(0, i as int));
            assert(after == before + Seq::new(tx.inputs@.len(), |k: int| msg@));
        }
        let mut j: usize = 0;
        while j < tx.inputs.len()
            invariant
                j <= tx.inputs@.len(),
                after == before + Seq::new(tx.inputs@.len(), |k: int| msg@),
                msgs@.len() == before.len() + j,
                forall|k: int| 0 <= k < msgs@.len() ==> (#[trigger] msgs@[k])@ == after[k],
            decreases tx.inputs@.len() - j,
        {
            msgs.push(to_vec(msg.as_slice()));
            j += 1;
        }
        i += 1;
    }
    assert(txs@.subrange(0, i as int) =~= txs@);
    Ok(msgs)
}

fn clamp(n: u128) -> (r: usize)
    ensures
        r == clamped(n as int),
{
    if n <= usize::MAX as u128 {
        n as usize
    } else {
        usize::MAX
    }
}

/// A number, or the largest there is.
pub open spec fn clamped(n: int) -> usize {
    if n <= usize::MAX {
        n as usize
    } else {
        usize::MAX
    }
}

/// Whether the signatures of a block verify.
pub open spec fn body_verifies(
    key: Seq<u8>,
    authorizations: Seq<Authorization>,
    txs: Seq<Transaction>,
) -> Result<(), Error> {
    if authorizations.len() != input_count(txs) {
        Err(
            Error::SignatureCountMismatch {
                expected: clamped(input_count(txs) as int),
                actual: authorizations.len() as usize,
            },
        )
    } else if authorizations.len() == 0 {
        Ok(())
    } else if !all_encodable(txs) {
        Err(Error::Encode)
    } else if chunks_pass(key, signed_with(authorizations, input_msgs(txs)), 0) {
        Ok(())
    } else {
        Err(Error::SignatureVerification)
    }
}

/// Verifies the signatures of a block, one for each input, in batches.
pub fn verify_authorizations(ctxt: &BatchVerificationContext, body: &Body) -> (r: Result<(), Error>)
    ensures
        r == body_verifies(ctxt.key(), body.authorizations@, body.transactions@),
        body.authorizations@.len() == input_count(body.transactions@) && all_encodable(
            body.transactions@,
        ) && all_verify(signed_with(body.authorizations@, input_msgs(body.transactions@)))
            ==> r is Ok,
{
    let total: u128 = count_inputs(&body.transactions);
    let count: usize = body.authorizations.len();
    if count as u128 != total {
        return Err(Error::SignatureCountMismatch { expected: clamp(total), actual: count });
    }
    if count == 0 {
        return Ok(());
    }
    let msgs = match list_msgs(&body.transactions) {
        Err(e) => return Err(e),
        Ok(msgs) => msgs,
    };
    proof {
        lemma_input_msgs(body.transactions@);
    }
    let ghost texts = input_msgs(body.transactions@);
    let ghost all = signed_with(body.authorizations@, texts);
    let mut items: Vec<BatchItem> = Vec::new();
    let mut i: usize = 0;
    while i < count
        invariant
            i <= count == body.authorizations@.len() == texts.len(),
            all == signed_with(body.authorizations@, texts),
            msgs@.len() == texts.len(),
            forall|k: int| 0 <= k < msgs@.len() ==> (#[trigger] msgs@[k])@ == texts[k],
            signed_items(items@) == all.subrange(0, i as int),
        decreases count - i,
    {
        let authorization = &body.authorizations[i];
        let ghost before = items@;
        items.push(
            BatchItem {
                verifying_key: authorization.verifying_key.0,
                msg: to_vec(msgs[i].as_slice()),
                signature: authorization.signature.0,
            },
        );
        proof {
            assert(signed_items(items@) =~= signed_items(before).push(all[i as int]));
            assert(all.subrange(0, i + 1) =~= all.subrange(0, i as int).push(all[i as int]));
        }
        i += 1;
    }
    assert(all.subrange(0, i as int) =~= all);
    if run_chunks(ctxt, &items) {
        Ok(())
    } else {
        Err(Error::SignatureVerification)
    }
}

/// The proof of who acts by a transaction of a block, if there is one.
pub open spec fn proof_at(proofs: Seq<Option<Authorization>>, i: int) -> Option<Authorization> {
    if 0 <= i < proofs.len() {
        proofs[i]
    } else {
        None
    }
}

/// The proofs of who acts by the transactions of a block hold.
pub open spec fn all_proofs_hold(proofs: Seq<Option<Authorization>>, txs: Seq<Transaction>)
    -> Result<(), Error>
    decreases txs.len(),
{
    if txs.len() == 0 {
        Ok(())
    } else {
        match all_proofs_hold(proofs, txs.drop_last()) {
            Err(e) => Err(e),
            Ok(()) => actor_proof_holds(proof_at(proofs, txs.len() - 1), txs.last()),
        }
    }
}

proof fn lemma_proofs_prefix(proofs: Seq<Option<Authorization>>, txs: Seq<Transaction>, n: int)
    requires
        0 <= n <= txs.len(),
        all_proofs_hold(proofs, txs.subrange(0, n)) is Err,
    ensures
        all_proofs_hold(proofs, txs) == all_proofs_hold(proofs, txs.subrange(0, n)),
    decreases txs.len() - n,
{
    if n == txs.len() {
        assert(txs.subrange(0, n) =~= txs);
    } else {
        assert(txs.subrange(0, n + 1).drop_last() =~= txs.subrange(0, n));
        lemma_proofs_prefix(proofs, txs, n + 1);
    }
}

fn check_actor_proofs(proofs: &Vec<Option<Authorization>>, txs: &Vec<Transaction>) -> (r: Result<
    (),
    Error,
>)
    ensures
        r == all_proofs_hold(proofs@, txs@),
{
    let mut i: usize = 0;
    assert(txs@.subrange(0, 0) =~= Seq::empty());
    while i < txs.len()
        invariant
            i <= txs@.len(),
            all_proofs_hold(proofs@, txs@.subrange(0, i as int)) is Ok,
        decreases txs@.len() - i,
    {
        proof {
            assert(txs@.subrange(0, i + 1).drop_last() =~= txs@.subrange(0, i as int));
        }
        if i < proofs.len() {
            match check_actor_proof(&proofs[i], &txs[i]) {
                Err(e) => {
                    proof {
                        lemma_proofs_prefix(proofs@, txs@, i + 1);
                    }
                    return Err(e);
                },
                Ok(()) => {},
            }
        }
        i += 1;
    }
    assert(txs@.subrange(0, i as int) =~= txs@);
    Ok(())
}

/// Verifies the signatures of a block, and then the proofs of who acts by its
/// transactions.
pub fn verify_body(ctxt: &BatchVerificationContext, body: &Body) -> (r: Result<(), Error>)
    ensures
        r == match body_verifies(ctxt.key(), body.authorizations@, body.transactions@) {
            Err(e) => Err::<(), Error>(e),
            Ok(()) => all_proofs_hold(body.actor_proofs@, body.transactions@),
        },
{
    match verify_authorizations(ctxt, body) {
        Err(e) => Err(e),
        Ok(()) => check_actor_proofs(&body.actor_proofs, &body.transactions),
    }
}

} // verus!
