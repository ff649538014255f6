//! Signatures, and who they are good for.

use truthcoin::authorization::{
    authorize, get_address, sign, sign_tx, verify, verify_actor_proof,
    verify_authorizations, verify_authorized_transaction, verify_body, verify_transaction,
    Authorization, BatchVerificationContext, Dst, Error, Signature, SignatureTextError,
    SigningKey, VerifyingKey,
};
use truthcoin::frost::BatchItem;
use truthcoin::types::block::Body;
use truthcoin::types::transaction::{AuthorizedTransaction, OutPoint, Transaction};
use truthcoin::types::{Address, Txid};

fn signing_key(seed: u8) -> SigningKey {
    let scalar = curve25519_dalek::Scalar::from_bytes_mod_order([seed; 32]);
    SigningKey(scalar.to_bytes())
}

fn verifying_key(key: &SigningKey) -> VerifyingKey {
    key.verifying_key().expect("non-zero scalar")
}

fn one_input_tx() -> Transaction {
    Transaction {
        inputs: vec![OutPoint::Regular { txid: Txid([3; 32]), vout: 0 }].into_boxed_slice(),
        ..Default::default()
    }
}

fn ctxt() -> BatchVerificationContext {
    BatchVerificationContext::with_key([42; 32])
}

#[test]
fn an_address_comes_from_the_compressed_ristretto_point() {
    let key = verifying_key(&signing_key(1));
    let expected = {
        let mut hasher = blake3::Hasher::new();
        let mut reader = hasher.update(&key.0).finalize_xof();
        let mut output = [0u8; 20];
        reader.fill(&mut output);
        Address(output)
    };
    assert_eq!(get_address(&key), expected);
}

#[test]
fn a_signature_round_trips_through_hex() {
    let signature = sign(&signing_key(3), Dst::Arbitrary, b"hello").unwrap();
    let encoded = signature.to_hex();
    assert_eq!(Signature::from_hex(encoded.as_bytes()).unwrap(), signature);
}

#[test]
fn authorize_puts_the_address_of_the_signer_on_the_authorization() {
    let key = signing_key(4);
    let address = get_address(&verifying_key(&key));
    let authorized = authorize(&vec![(address, key)], one_input_tx()).expect("authorize");
    assert_eq!(authorized.authorizations[0].get_address(), address);
}

#[test]
fn authorize_rejects_a_key_that_does_not_match_the_address() {
    let key = signing_key(5);
    let other = get_address(&verifying_key(&signing_key(6)));
    let err = authorize(&vec![(other, key)], one_input_tx())
        .expect_err("authorize must reject a key for another address");
    assert!(matches!(err, Error::WrongKeyForAddress { .. }));
}

#[test]
fn a_good_signature_verifies() {
    let key = signing_key(7);
    let address = get_address(&verifying_key(&key));
    let authorized = authorize(&vec![(address, key)], one_input_tx()).expect("authorize");
    verify_authorized_transaction(&ctxt(), &authorized).expect("a good signature must verify");
}

#[test]
fn a_signature_from_another_key_fails() {
    let victim = signing_key(8);
    let attacker = signing_key(9);
    let transaction = one_input_tx();
    let forged = Authorization {
        verifying_key: verifying_key(&victim),
        signature: sign_tx(&attacker, &transaction).expect("sign"),
    };
    let authorized = AuthorizedTransaction {
        transaction,
        authorizations: vec![forged].into_boxed_slice(),
        actor_proof: None,
    };
    assert!(
        verify_authorized_transaction(&ctxt(), &authorized).is_err(),
        "a forged signature must not verify"
    );
}

#[test]
fn a_transaction_without_inputs_verifies() {
    let authorized = AuthorizedTransaction {
        transaction: Transaction::default(),
        authorizations: vec![].into_boxed_slice(),
        actor_proof: None,
    };
    verify_authorized_transaction(&ctxt(), &authorized)
        .expect("a transaction without inputs needs no signature");
}

#[test]
fn a_missing_authorization_fails() {
    let authorized = AuthorizedTransaction {
        transaction: one_input_tx(),
        authorizations: vec![].into_boxed_slice(),
        actor_proof: None,
    };
    assert!(matches!(
        verify_authorized_transaction(&ctxt(), &authorized),
        Err(Error::SignatureCountMismatch { .. })
    ));
}

#[test]
fn a_domain_tag_separates_two_messages() {
    let key = signing_key(10);
    let verifying_key = verifying_key(&key);
    let signature = sign(&key, Dst::Arbitrary, b"same message").unwrap();
    assert!(verify(signature, &verifying_key, Dst::Arbitrary, b"same message"));
    assert!(
        !verify(signature, &verifying_key, Dst::Transaction, b"same message"),
        "a signature under one domain tag must not verify under another"
    );
}

#[test]
fn the_zero_scalar_is_no_signing_key() {
    let key = SigningKey([0; 32]);
    assert!(key.verifying_key().is_none());
    assert!(sign(&key, Dst::Arbitrary, b"hello").is_none());
    assert!(matches!(sign_tx(&key, &one_input_tx()), Err(Error::SigningKey)));
}

#[test]
fn a_text_that_is_no_signature_is_rejected() {
    assert_eq!(Signature::from_hex(b"zz"), Err(SignatureTextError));
    assert_eq!(Signature::from_hex(b"00"), Err(SignatureTextError));
    assert_eq!(Signature::from_bytes(&[0xff; 64]), Err(SignatureTextError));
    assert_eq!(Signature::from_bytes(&[0; 63]), Err(SignatureTextError));
    let signature = sign(&signing_key(3), Dst::Arbitrary, b"hello").unwrap();
    assert_eq!(Signature::from_bytes(&signature.to_bytes()), Ok(signature));
}

#[test]
fn a_proof_of_the_actor_is_checked() {
    let key = signing_key(11);
    let transaction = one_input_tx();
    let signature = sign_tx(&key, &transaction).unwrap();
    let proved = AuthorizedTransaction {
        transaction: one_input_tx(),
        authorizations: vec![].into_boxed_slice(),
        actor_proof: Some(Authorization { verifying_key: verifying_key(&key), signature }),
    };
    assert!(verify_actor_proof(&proved).is_ok());
    let forged = AuthorizedTransaction {
        transaction: Transaction::default(),
        authorizations: vec![].into_boxed_slice(),
        actor_proof: Some(Authorization { verifying_key: verifying_key(&key), signature }),
    };
    assert!(matches!(verify_actor_proof(&forged), Err(Error::SignatureVerification)));
    assert!(matches!(verify_transaction(&ctxt(), &forged), Err(Error::SignatureVerification)));
}

fn body(n: u8) -> Body {
    let mut transactions = vec![];
    let mut authorizations = vec![];
    for i in 0..n {
        let key = signing_key(20 + i);
        let tx = Transaction {
            inputs: vec![OutPoint::Regular { txid: Txid([i; 32]), vout: 0 }].into_boxed_slice(),
            ..Default::default()
        };
        let address = get_address(&verifying_key(&key));
        let signed = authorize(&vec![(address, key)], tx).unwrap();
        authorizations.extend(signed.authorizations.iter().copied());
        transactions.push(signed.transaction);
    }
    Body { coinbase: vec![], transactions, authorizations, actor_proofs: vec![None; n as usize] }
}

#[test]
fn all_signatures_of_a_body_are_checked() {
    assert!(verify_body(&ctxt(), &body(3)).is_ok());
    assert!(verify_authorizations(&ctxt(), &body(3)).is_ok());

    let mut short = body(3);
    short.authorizations.pop();
    assert!(matches!(
        verify_authorizations(&ctxt(), &short),
        Err(Error::SignatureCountMismatch { .. })
    ));

    let mut swapped = body(3);
    swapped.authorizations.swap(0, 1);
    assert!(verify_authorizations(&ctxt(), &swapped).is_err());
    assert!(verify_body(&ctxt(), &swapped).is_err());
}

#[test]
fn a_batch_is_seeded_by_all_that_it_holds() {
    let items = vec![
        BatchItem { verifying_key: [1; 32], msg: vec![7, 8], signature: [2; 64] },
        BatchItem { verifying_key: [3; 32], msg: vec![], signature: [4; 64] },
    ];
    let mut transcript = vec![1u8; 32];
    transcript.extend([2; 64]);
    transcript.extend([7, 8]);
    transcript.extend([3; 32]);
    transcript.extend([4; 64]);
    transcript.extend(2u64.to_le_bytes());
    assert_eq!(ctxt().seed(&items), *blake3::keyed_hash(&[42; 32], &transcript).as_bytes());
}

#[test]
fn contexts_draw_different_keys() {
    let items = vec![BatchItem { verifying_key: [1; 32], msg: vec![], signature: [2; 64] }];
    let (a, b) = (BatchVerificationContext::new(), BatchVerificationContext::new());
    assert_ne!(a.seed(&items), b.seed(&items));
    assert!(verify_body(&a, &body(2)).is_ok());
}
