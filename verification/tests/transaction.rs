//! Transactions, what they spend and what they create.

use truthcoin::state::decisions::types::DecisionType;
use truthcoin::state::markets::types::MarketId;
use truthcoin::types::encoding::{to_bytes, Encode, EncodeError};
use truthcoin::types::transaction::output::{
    AssetContent, BitcoinContent, Content, FilledContent, FilledOutput, GetBitcoinValue,
    MainAddress, Output, TxOutput, WithdrawalContent,
};
use truthcoin::types::transaction::{
    Authorized, ClaimDecisionPayload, DecisionClaimEntry, FilledTransaction, OutPoint,
    OutPointKey, Transaction, TransactionData, OUTPOINT_KEY_SIZE,
};
use truthcoin::types::{
    Address, BlockHash, MainOutPoint, MainTxid, MerkleRoot, Real, Txid,
};

const NOBODY: Address = Address([0; 20]);

fn main_address() -> MainAddress {
    let script = "1BvBMSEYstWetqTFn5Au4m4GFg7xJaNVN2"
        .parse::<bitcoin::Address<bitcoin::address::NetworkUnchecked>>()
        .unwrap()
        .assume_checked()
        .script_pubkey();
    MainAddress { script_pubkey: script.to_bytes().into_boxed_slice() }
}

// a withdrawal output must be funded for both its payout and its mainchain
// fee, since both leave the treasury
#[test]
fn withdrawal_value_includes_main_fee() {
    let value = 1000;
    let main_fee = 300;
    let withdrawal = Output::new(
        NOBODY,
        Content::Withdrawal(WithdrawalContent { value, main_fee, main_address: main_address() }),
    );
    assert_eq!(withdrawal.content.get_bitcoin_value(), value + main_fee);

    let value_output =
        |amount| FilledOutput::new(NOBODY, FilledContent::Bitcoin(BitcoinContent(amount)));
    let withdrawal_tx = |funding| FilledTransaction {
        transaction: Transaction {
            outputs: vec![withdrawal.clone()].into_boxed_slice(),
            ..Default::default()
        },
        spent_utxos: vec![value_output(funding)].into_boxed_slice(),
        actor_address: None,
    };

    // inputs covering only the payout are insufficient
    assert_eq!(withdrawal_tx(value).bitcoin_fee(), Ok(None));
    // inputs covering payout plus mainchain fee fully fund it
    assert_eq!(withdrawal_tx(value + main_fee).bitcoin_fee(), Ok(Some(0)));
}

fn encoded(op: &OutPoint) -> Vec<u8> {
    let mut buf = Vec::new();
    op.encode(&mut buf).unwrap();
    buf
}

#[test]
fn check_outpoint_key_size() {
    let variants = [
        OutPoint::Regular { txid: Default::default(), vout: u32::MAX },
        OutPoint::Coinbase { merkle_root: Default::default(), vout: u32::MAX },
        OutPoint::Deposit(MainOutPoint { txid: MainTxid([0; 32]), vout: u32::MAX }),
    ];

    for op in variants {
        let serialized = encoded(&op);
        assert_eq!(serialized.len(), OUTPOINT_KEY_SIZE, "unexpected serialized size");

        let key = OutPointKey::from_outpoint(&op);
        assert_eq!(key.to_outpoint(), op);
    }

    let market_funds =
        OutPoint::MarketFunds { market_id: [0xAB; 6], block_height: 42, is_fee: true };
    assert!(encoded(&market_funds).len() <= OUTPOINT_KEY_SIZE);
    let mf_key = OutPointKey::from_outpoint(&market_funds);
    assert_eq!(mf_key.to_outpoint(), market_funds);

    let payout = OutPoint::Payout { hash: Default::default(), vout: u32::MAX };
    assert_eq!(encoded(&payout).len(), OUTPOINT_KEY_SIZE);
    let payout_key = OutPointKey::from_outpoint(&payout);
    assert_eq!(payout_key.to_outpoint(), payout);
}

#[test]
fn an_outpoint_key_is_read_from_bytes() {
    let op = OutPoint::Regular { txid: Txid([5; 32]), vout: 0x0102_0304 };
    let key = OutPointKey::from_outpoint(&op);
    assert_eq!(OutPointKey::from_slice(key.as_bytes()), Some(key));
    assert_eq!(OutPointKey::from_slice(&key.as_bytes()[1..]), None);
    let mut unknown = *key.as_bytes();
    unknown[0] = 9;
    assert_eq!(OutPointKey::from_slice(&unknown), None);
}

#[test]
fn claim_decision_variant_wire_format() {
    let payload = ClaimDecisionPayload {
        decision_type: DecisionType::Binary,
        decisions: vec![DecisionClaimEntry {
            decision_id_bytes: [0x01, 0x02, 0x03],
            header: "h".to_string(),
            description: "d".to_string(),
            option_0_label: None,
            option_1_label: None,
            option_labels: None,
            tags: None,
        }]
        .into_boxed_slice(),
    };

    let payload_bytes = to_bytes(&payload).unwrap();
    let variant_bytes = to_bytes(&TransactionData::ClaimDecision(payload.clone())).unwrap();

    assert!(!variant_bytes.is_empty(), "variant encoding must not be empty");
    assert_eq!(variant_bytes[0], 0u8, "ClaimDecision must be variant index 0");
    assert_eq!(
        &variant_bytes[1..],
        payload_bytes.as_slice(),
        "tuple-variant body must equal raw payload encoding"
    );
    assert_eq!(
        payload_bytes,
        [
            0u8, // binary
            1, 0, 0, 0, // one decision
            1, 2, 3, // its id
            1, 0, 0, 0, b'h', 1, 0, 0, 0, b'd', // the texts
            0, 0, 0, 0, // nothing more
        ]
    );
}

#[test]
fn the_encoding_of_a_transaction() {
    let tx = Transaction {
        inputs: vec![OutPoint::Regular { txid: Txid([7; 32]), vout: 1 }].into_boxed_slice(),
        outputs: vec![TxOutput::new(Address([2; 20]), Content::Bitcoin(BitcoinContent(258)))]
            .into_boxed_slice(),
        memo: vec![0xaa].into_boxed_slice(),
        data: None,
    };
    let mut expected = vec![1, 0, 0, 0, 0];
    expected.extend([7; 32]);
    expected.extend([1, 0, 0, 0]);
    expected.extend([1, 0, 0, 0]);
    expected.extend([2; 20]);
    let bytes = to_bytes(&tx).unwrap();
    assert_eq!(bytes[..expected.len()], expected[..]);
    // the identity is the hash of the encoding
    assert_eq!(tx.txid().0, *blake3::hash(&bytes).as_bytes());
}

#[test]
fn the_encoding_agrees_with_borsh() {
    // the same values by borsh's own impls
    let op = OutPoint::Regular { txid: Txid([3; 32]), vout: 77 };
    assert_eq!(encoded(&op)[1..], borsh::to_vec(&([3u8; 32], 77u32)).unwrap()[..]);
    let coinbase = OutPoint::Coinbase { merkle_root: MerkleRoot([4; 32]), vout: 1 };
    assert_eq!(encoded(&coinbase)[1..], borsh::to_vec(&([4u8; 32], 1u32)).unwrap()[..]);
    let vote = TransactionData::SubmitVote {
        voter: Address([6; 20]),
        decision_id_bytes: [1, 2, 3],
        vote_value: Real { bits: 0.25f64.to_bits() },
        voting_period: 9,
    };
    assert_eq!(
        to_bytes(&vote).unwrap()[1..],
        borsh::to_vec(&([6u8; 20], [1u8, 2, 3], 0.25f64, 9u32)).unwrap()[..]
    );
    let transfer = TransactionData::TransferReputation {
        sender: Address([1; 20]),
        dest: Address([2; 20]),
        amount: Real { bits: f64::NAN.to_bits() },
    };
    assert_eq!(to_bytes(&transfer), Err(EncodeError));
    assert!(borsh::to_vec(&f64::NAN).is_err());
}

fn trade(shares: i64) -> FilledTransaction {
    FilledTransaction {
        transaction: Transaction {
            data: Some(TransactionData::Trade {
                market_id: MarketId::new([1; 6]),
                outcome_index: 2,
                shares,
                trader: Address([3; 20]),
                limit_sats: 4,
                tx_pow_nonce: None,
                prev_block_hash: BlockHash([0; 32]),
            }),
            ..Default::default()
        },
        spent_utxos: vec![].into_boxed_slice(),
        actor_address: None,
    }
}

#[test]
fn a_trade_buys_or_sells() {
    let buy = trade(5).trade().unwrap();
    assert!(buy.is_buy() && !buy.is_sell());
    assert_eq!(buy.shares_abs(), 5);
    assert_eq!((buy.outcome_index, buy.limit_sats), (2, 4));
    let sell = trade(i64::MIN).trade().unwrap();
    assert!(sell.is_sell() && !sell.is_buy());
    assert_eq!(sell.shares_abs(), 1 << 63);
    assert!(trade(1).is_trade());
    assert!(trade(1).amplify_beta().is_none());
    assert!(!trade(1).transaction.is_regular());
    assert!(Transaction::default().is_regular());
}

fn bitcoin(sats: u64) -> FilledOutput {
    FilledOutput::new(NOBODY, FilledContent::Bitcoin(BitcoinContent(sats)))
}

#[test]
fn the_fee_is_what_is_not_paid_out() {
    let tx = |spent: Vec<u64>, made: Vec<u64>| FilledTransaction {
        transaction: Transaction {
            outputs: made
                .into_iter()
                .map(|sats| TxOutput::new(NOBODY, Content::Bitcoin(BitcoinContent(sats))))
                .collect::<Vec<_>>()
                .into_boxed_slice(),
            ..Default::default()
        },
        spent_utxos: spent.into_iter().map(bitcoin).collect::<Vec<_>>().into_boxed_slice(),
        actor_address: None,
    };
    assert_eq!(tx(vec![10, 20], vec![25]).bitcoin_fee(), Ok(Some(5)));
    assert_eq!(tx(vec![10], vec![11]).bitcoin_fee(), Ok(None));
    assert!(tx(vec![u64::MAX, 1], vec![]).bitcoin_fee().is_err());
    assert!(tx(vec![1], vec![u64::MAX, 1]).bitcoin_fee().is_err());
    assert_eq!(tx(vec![10, 20], vec![25]).spent_bitcoin_value(), Ok(30));
}

#[test]
fn contents_keep_apart() {
    let funds = Content::MarketFunds {
        market_id: [1; 6],
        amount: BitcoinContent(3),
        is_fee: true,
    };
    assert!(funds.is_market_funds() && funds.is_market_author_fee());
    assert!(!funds.is_market_treasury() && !funds.is_bitcoin() && !funds.is_withdrawal());
    assert_eq!(funds.get_bitcoin_value(), 3);
    assert_eq!(Content::from(BitcoinContent(8)).as_bitcoin(), Some(BitcoinContent(8)));
    assert_eq!(
        Content::from(BitcoinContent(8)).as_asset(),
        Some(AssetContent::Bitcoin(BitcoinContent(8)))
    );
    assert_eq!(funds.clone().as_bitcoin(), Some(BitcoinContent(3)));
    assert_eq!(funds.clone().as_asset(), Some(AssetContent::Bitcoin(BitcoinContent(3))));
    let filled = funds.to_filled();
    assert!(filled.is_market_author_fee());
    assert_eq!(Content::from(filled), Content::Bitcoin(BitcoinContent(3)));
}

#[test]
fn who_has_a_part_in_a_transaction() {
    let tx = Authorized {
        transaction: Transaction {
            outputs: vec![
                TxOutput::new(Address([5; 20]), Content::Bitcoin(BitcoinContent(1))),
                TxOutput::new(Address([5; 20]), Content::Bitcoin(BitcoinContent(2))),
            ]
            .into_boxed_slice(),
            ..Default::default()
        },
        authorizations: vec![].into_boxed_slice(),
        actor_proof: None,
    };
    assert_eq!(tx.relevant_addresses(), vec![Address([5; 20])]);
}

#[test]
fn assets_are_listed() {
    let a = OutPoint::Regular { txid: Txid([1; 32]), vout: 0 };
    let b = OutPoint::Regular { txid: Txid([2; 32]), vout: 0 };
    let tx = FilledTransaction {
        transaction: Transaction {
            inputs: vec![a, b].into_boxed_slice(),
            outputs: vec![
                TxOutput::new(NOBODY, Content::Bitcoin(BitcoinContent(7))),
                TxOutput::new(
                    NOBODY,
                    Content::MarketFunds {
                        market_id: [1; 6],
                        amount: BitcoinContent(2),
                        is_fee: false,
                    },
                ),
            ]
            .into_boxed_slice(),
            ..Default::default()
        },
        spent_utxos: vec![bitcoin(4), bitcoin(5)].into_boxed_slice(),
        actor_address: None,
    };
    let inputs = tx.spent_inputs();
    assert_eq!((*inputs[1].0, inputs[1].1.get_bitcoin_value()), (b, 5));
    assert_eq!(tx.spent_assets().len(), 2);
    let assets = tx.unique_spent_assets();
    assert_eq!(assets.len(), 1);
    assert_eq!(assets[0].1, 9);
    assert_eq!(tx.transaction.indexed_asset_outputs().len(), 2);
    assert_eq!(tx.filled_outputs().unwrap().len(), 2);
    assert_eq!(tx.bitcoin_fee(), Ok(Some(0)));
}

#[test]
fn the_content_of_an_output_is_mapped() {
    let output = Output::new(NOBODY, BitcoinContent(3));
    let doubled = output.map_content(|content| BitcoinContent(content.0 * 2));
    assert_eq!(doubled, Output::new(NOBODY, BitcoinContent(6)));
    assert_eq!(doubled.map_content_opt(|_| None::<BitcoinContent>), None);
}
