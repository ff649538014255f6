//! What makes a transaction or a block valid.

use truthcoin::state::decisions::types::{DecisionId, DecisionType};
use truthcoin::state::decisions::Dbs;
use truthcoin::state::markets::types::MarketState;
use truthcoin::state::{Error, Reason, State};
use truthcoin::types::transaction::output::{
    BitcoinContent, Content, FilledContent, FilledOutput, MainAddress, Output, TxOutput,
    WithdrawalContent,
};
use truthcoin::types::transaction::{
    ClaimDecisionPayload, DecisionClaimEntry, FilledTransaction, OutPoint, Transaction,
    TransactionData,
};
use truthcoin::types::{Address, Txid};
use truthcoin::validation::block::CheckFigures;
use truthcoin::validation::decision::ClaimFigures;
use truthcoin::validation::market::TradeLimits;
use truthcoin::validation::{
    BlockValidator, DecisionValidator, MarketStateValidator, MarketValidator,
};

const NOBODY: Address = Address([0; 20]);
const MINER_FEE: u64 = 1_000;

fn bitcoin_output(sats: u64) -> TxOutput {
    Output::new(NOBODY, Content::Bitcoin(BitcoinContent(sats)))
}

#[test]
fn coinbase_bitcoin_output_always_valid() {
    let outputs = vec![bitcoin_output(5000)];
    assert!(BlockValidator::validate_coinbase_outputs(&outputs, 0).is_ok());
    assert!(BlockValidator::validate_coinbase_outputs(&outputs, 100).is_ok());
}

#[test]
fn coinbase_market_funds_always_rejected() {
    let outputs = vec![Output::new(
        NOBODY,
        Content::MarketFunds { market_id: [0u8; 6], amount: BitcoinContent(1000), is_fee: false },
    )];
    assert!(BlockValidator::validate_coinbase_outputs(&outputs, 0).is_err());
}

#[test]
fn validate_fees_exact_match_ok() {
    assert!(BlockValidator::validate_fees(0, &vec![], &vec![], MINER_FEE).is_ok());
}

#[test]
fn validate_fees_coinbase_exceeds_fees_rejected() {
    assert!(BlockValidator::validate_fees(1000, &vec![], &vec![], MINER_FEE).is_err());
}

fn paying(fee: u64) -> FilledTransaction {
    FilledTransaction {
        transaction: Transaction {
            outputs: vec![bitcoin_output(50)].into_boxed_slice(),
            ..Default::default()
        },
        spent_utxos: vec![FilledOutput::new(
            NOBODY,
            FilledContent::Bitcoin(BitcoinContent(50 + fee)),
        )]
        .into_boxed_slice(),
        actor_address: None,
    }
}

#[test]
fn skipped_transactions_pay_no_fee() {
    let txs = vec![paying(10), paying(20)];
    assert!(BlockValidator::validate_fees(30, &txs, &vec![], MINER_FEE).is_ok());
    assert!(matches!(
        BlockValidator::validate_fees(31, &txs, &vec![], MINER_FEE),
        Err(Error::NotEnoughFees)
    ));
    assert!(BlockValidator::validate_fees(10, &txs, &vec![1], MINER_FEE).is_ok());
    assert!(matches!(
        BlockValidator::validate_fees(11, &txs, &vec![1], MINER_FEE),
        Err(Error::NotEnoughFees)
    ));
}

fn claim_tx(ids: &[[u8; 3]]) -> Transaction {
    let decisions: Vec<DecisionClaimEntry> = ids
        .iter()
        .map(|id| DecisionClaimEntry {
            decision_id_bytes: *id,
            header: String::new(),
            description: String::new(),
            option_0_label: None,
            option_1_label: None,
            option_labels: None,
            tags: None,
        })
        .collect();
    Transaction {
        data: Some(TransactionData::ClaimDecision(ClaimDecisionPayload {
            decision_type: DecisionType::Binary,
            decisions: decisions.into_boxed_slice(),
        })),
        ..Transaction::default()
    }
}

#[test]
fn duplicate_decision_claim_across_txs_rejected() {
    let txs = vec![claim_tx(&[[1, 2, 3]]), claim_tx(&[[1, 2, 3]])];
    assert!(BlockValidator::check_duplicate_decision_claims(&txs).is_err());
}

#[test]
fn distinct_decision_claims_ok() {
    let txs = vec![claim_tx(&[[1, 2, 3]]), claim_tx(&[[4, 5, 6]])];
    assert!(BlockValidator::check_duplicate_decision_claims(&txs).is_ok());
}

#[test]
fn the_claim_that_comes_twice_is_named() {
    let txs = vec![claim_tx(&[[1, 2, 3], [4, 5, 6]]), claim_tx(&[[7, 8, 9], [4, 5, 6]])];
    assert!(matches!(
        BlockValidator::check_duplicate_decision_claims(&txs),
        Err(Error::DuplicateDecisionClaim([4, 5, 6]))
    ));
}

fn limits() -> TradeLimits {
    TradeLimits { miner_fee_sats: MINER_FEE, pow_bound_window_blocks: 6 }
}

#[test]
fn cannot_spend_withdrawal_output() {
    let state = State::new(None, 0).unwrap();
    let script = "1BvBMSEYstWetqTFn5Au4m4GFg7xJaNVN2"
        .parse::<bitcoin::Address<bitcoin::address::NetworkUnchecked>>()
        .unwrap()
        .assume_checked()
        .script_pubkey();
    let withdrawal = FilledOutput::new(
        NOBODY,
        FilledContent::BitcoinWithdrawal(WithdrawalContent {
            value: 1000,
            main_fee: 300,
            main_address: MainAddress { script_pubkey: script.to_bytes().into_boxed_slice() },
        }),
    );
    let outpoint = OutPoint::Regular { txid: Txid([1; 32]), vout: 0 };
    let tx = FilledTransaction {
        transaction: Transaction {
            inputs: vec![outpoint].into_boxed_slice(),
            outputs: vec![bitcoin_output(1300)].into_boxed_slice(),
            ..Default::default()
        },
        spent_utxos: vec![withdrawal].into_boxed_slice(),
        actor_address: None,
    };
    assert!(matches!(
        BlockValidator::validate_filled_transaction(
            &state,
            &tx,
            0,
            &CheckFigures::Nothing,
            &limits()
        ),
        Err(Error::SpendWithdrawalOutput { .. })
    ));
}

#[test]
fn a_plain_transaction_pays_its_fee() {
    let state = State::new(None, 0).unwrap();
    let check = |tx| state.validate_filled_transaction(&tx, 0, &CheckFigures::Nothing, &limits());
    assert_eq!(check(paying(7)).unwrap(), 7);
    let mut short = paying(7);
    short.transaction.outputs = vec![bitcoin_output(1000)].into_boxed_slice();
    assert!(matches!(check(short), Err(Error::NotEnoughValueIn)));
}

#[test]
fn parse_valid_hex_decision_id() {
    let hex = "010001";
    let result = DecisionValidator::parse_decision_id_from_hex(hex);
    assert!(result.is_ok());
}

#[test]
fn parse_invalid_hex_decision_id() {
    assert!(DecisionValidator::parse_decision_id_from_hex("zzzzzz").is_err());
}

#[test]
fn parse_wrong_length_decision_id() {
    assert!(DecisionValidator::parse_decision_id_from_hex("01").is_err());
    assert!(DecisionValidator::parse_decision_id_from_hex("0100010001").is_err());
}

#[test]
fn digits_give_the_bytes_of_a_decision() {
    let id = DecisionValidator::parse_decision_id_from_hex("0aFf01").unwrap();
    assert_eq!(id, DecisionId([0x0a, 0xff, 0x01]));
}

#[test]
fn market_valid_shares() {
    let shares = vec![100, 100];
    assert!(MarketValidator::validate_market_shares(&shares).is_ok());
}

#[test]
fn market_negative_shares_rejected() {
    let shares = vec![100, -1];
    assert!(MarketValidator::validate_market_shares(&shares).is_err());
}

#[test]
fn market_fewer_than_two_outcomes_rejected() {
    let shares = vec![100];
    assert!(MarketValidator::validate_market_shares(&shares).is_err());
}

#[test]
fn state_transition_valid() {
    for to in
        [MarketState::Settled, MarketState::Cancelled, MarketState::Invalid, MarketState::Trading]
    {
        assert!(
            MarketStateValidator::validate_market_state_transition(MarketState::Trading, to)
                .is_ok()
        );
    }
}

#[test]
fn state_transition_invalid() {
    assert!(
        MarketStateValidator::validate_market_state_transition(
            MarketState::Settled,
            MarketState::Trading
        )
        .is_err()
    );
    assert!(
        MarketStateValidator::validate_market_state_transition(
            MarketState::Cancelled,
            MarketState::Trading
        )
        .is_err()
    );
}

#[test]
fn the_maker_owns_the_first_coin() {
    let mut tx = paying(1);
    assert!(MarketValidator::validate_maker_auth(&tx).is_err());
    tx.transaction.inputs =
        vec![OutPoint::Regular { txid: Txid([1; 32]), vout: 0 }].into_boxed_slice();
    assert_eq!(MarketValidator::validate_maker_auth(&tx).unwrap(), NOBODY);
}

fn options() -> Box<[String]> {
    vec!["a".to_string(), "b".to_string()].into_boxed_slice()
}

fn category_claim(ids: &[DecisionId]) -> ClaimDecisionPayload {
    let entries: Vec<DecisionClaimEntry> = ids
        .iter()
        .map(|id| DecisionClaimEntry {
            decision_id_bytes: id.0,
            header: "h".to_string(),
            description: String::new(),
            option_0_label: None,
            option_1_label: None,
            option_labels: Some(options()),
            tags: None,
        })
        .collect();
    ClaimDecisionPayload {
        decision_type: DecisionType::Category { options: options() },
        decisions: entries.into_boxed_slice(),
    }
}

#[test]
fn a_category_claim_has_two_entries_or_more() {
    let mut dbs = Dbs::new(5_000);
    dbs.mint_genesis(0, 0);
    let id = |index| DecisionId::new(true, 4, index).unwrap();
    let check = |payload: &ClaimDecisionPayload, fees: Vec<Option<u64>>| {
        let figures = ClaimFigures { aligned: true, listing_fees: fees };
        DecisionValidator::validate_claim_payload(&dbs, payload, NOBODY, 0, &figures)
    };
    let two = category_claim(&[id(0), id(1)]);
    assert_eq!(check(&two, vec![Some(30), Some(12)]).unwrap(), 42);
    assert!(matches!(
        check(&two, vec![Some(30), None]),
        Err(Error::InvalidTransaction { reason: Reason::Text("no fee for decision index") })
    ));
    assert!(matches!(
        check(&two, vec![Some(u64::MAX), Some(1)]),
        Err(Error::InvalidTransaction { reason: Reason::Text("Listing fee overflow") })
    ));
    let one = category_claim(&[id(0)]);
    assert!(matches!(check(&one, vec![Some(30)]), Err(Error::InvalidTransaction { .. })));
    let mut unlabelled = category_claim(&[id(0), id(1)]);
    unlabelled.decisions[1].option_labels = None;
    assert!(matches!(
        check(&unlabelled, vec![Some(30), Some(12)]),
        Err(
            Error::InvalidTransaction {
                reason: Reason::Text("Category claim entry must have option_labels"),
            },
        )
    ));
    let mut late = category_claim(&[id(0), id(1)]);
    late.decisions[1].decision_id_bytes = DecisionId::new(true, 100, 0).unwrap().0;
    assert!(matches!(
        check(&late, vec![Some(30), Some(12)]),
        Err(Error::InvalidDecisionId { .. })
    ));
    let mut binary = category_claim(&[id(0), id(1)]);
    binary.decision_type = DecisionType::Binary;
    assert!(matches!(
        check(&binary, vec![Some(30), Some(12)]),
        Err(Error::InvalidTransaction { reason: Reason::ClaimSize { scaled: false, got: 2 } })
    ));
}
