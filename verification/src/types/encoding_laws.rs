//! What holds of the bytes that transactions are hashed by.

use vstd::prelude::*;

use crate::bytes::{le32, le32_injective, le64};
use crate::types::encoding::{twos_complement, Encode};
use crate::types::transaction::TransactionData;

verus! {

proof fn lemma_split(a: Seq<u8>, s: Seq<u8>, b: Seq<u8>, t: Seq<u8>)
    requires
        a + s == b + t,
        a.len() == b.len(),
    ensures
        a == b,
        s == t,
{
    assert((a + s).subrange(0, a.len() as int) =~= a);
    assert((b + t).subrange(0, b.len() as int) =~= b);
    assert((a + s).skip(a.len() as int) =~= s);
    assert((b + t).skip(b.len() as int) =~= t);
}

/// Different numbers have different bytes.
pub proof fn numbers_have_their_own_bytes(x: u64, y: u64)
    requires
        le64(x) == le64(y),
    ensures
        x == y,
{
    let a = le32((x % 0x1_0000_0000) as u32);
    let b = le32((y % 0x1_0000_0000) as u32);
    let c = le32((x / 0x1_0000_0000) as u32);
    let d = le32((y / 0x1_0000_0000) as u32);
    lemma_split(a, c, b, d);
    le32_injective((x % 0x1_0000_0000) as u32, (y % 0x1_0000_0000) as u32);
    le32_injective((x / 0x1_0000_0000) as u32, (y / 0x1_0000_0000) as u32);
}

/// So have numbers with a sign.
pub proof fn signed_numbers_have_their_own_bytes(x: i64, y: i64)
    requires
        x.encoding() == y.encoding(),
    ensures
        x == y,
{
    numbers_have_their_own_bytes(twos_complement(x), twos_complement(y));
}

proof fn lemma_seven_parts(
    a: (Seq<u8>, Seq<u8>, Seq<u8>, Seq<u8>, Seq<u8>, Seq<u8>, Seq<u8>, Seq<u8>),
    b: (Seq<u8>, Seq<u8>, Seq<u8>, Seq<u8>, Seq<u8>, Seq<u8>, Seq<u8>, Seq<u8>),
)
    requires
        a.0 + a.1 + a.2 + a.3 + a.4 + a.5 + a.6 + a.7 == b.0 + b.1 + b.2 + b.3 + b.4 + b.5 + b.6
            + b.7,
        a.0.len() == b.0.len(),
        a.1.len() == b.1.len(),
        a.2.len() == b.2.len(),
        a.3.len() == b.3.len(),
        a.4.len() == b.4.len(),
        a.5.len() == b.5.len(),
        a.7.len() == b.7.len(),
    ensures
        a == b,
{
    let x1 = a.0 + a.1;
    let y1 = b.0 + b.1;
    let x2 = x1 + a.2;
    let y2 = y1 + b.2;
    let x3 = x2 + a.3;
    let y3 = y2 + b.3;
    let x4 = x3 + a.4;
    let y4 = y3 + b.4;
    let x5 = x4 + a.5;
    let y5 = y4 + b.5;
    let x6 = x5 + a.6;
    let y6 = y5 + b.6;
    assert((x6 + a.7).len() == x6.len() + a.7.len());
    assert((y6 + b.7).len() == y6.len() + b.7.len());
    lemma_split(x6, a.7, y6, b.7);
    lemma_split(x5, a.6, y5, b.6);
    lemma_split(x4, a.5, y4, b.5);
    lemma_split(x3, a.4, y3, b.4);
    lemma_split(x2, a.3, y2, b.3);
    lemma_split(x1, a.2, y1, b.2);
    lemma_split(a.0, a.1, b.0, b.1);
}

/// The bytes of the parts of a trade, behind those of its kind.
pub open spec fn trade_parts(a: TransactionData) -> (
    Seq<u8>,
    Seq<u8>,
    Seq<u8>,
    Seq<u8>,
    Seq<u8>,
    Seq<u8>,
    Seq<u8>,
    Seq<u8>,
) {
    (
        seq![2u8],
        a->Trade_market_id.0@,
        le32(a->Trade_outcome_index),
        le64(twos_complement(a->Trade_shares)),
        a->Trade_trader.0@,
        le64(a->Trade_limit_sats),
        a->Trade_tx_pow_nonce.encoding(),
        a->Trade_prev_block_hash.0@,
    )
}

proof fn lemma_trade_parts(a: TransactionData)
    requires
        a is Trade,
    ensures
        ({
            let p = trade_parts(a);
            &&& a.encoding() == p.0 + p.1 + p.2 + p.3 + p.4 + p.5 + p.6 + p.7
            &&& p.0.len() == 1
            &&& p.1.len() == 6
            &&& p.2.len() == 4
            &&& p.3.len() == 8
            &&& p.4.len() == 20
            &&& p.5.len() == 8
            &&& p.7.len() == 32
        }),
{
}

/// Different trades have different bytes: each part of a trade is hashed.
pub proof fn trades_have_their_own_bytes(a: TransactionData, b: TransactionData)
    requires
        a is Trade,
        b is Trade,
        a.encoding() == b.encoding(),
    ensures
        a->Trade_market_id.0@ == b->Trade_market_id.0@,
        a->Trade_outcome_index == b->Trade_outcome_index,
        a->Trade_shares == b->Trade_shares,
        a->Trade_trader.0@ == b->Trade_trader.0@,
        a->Trade_limit_sats == b->Trade_limit_sats,
        a->Trade_tx_pow_nonce == b->Trade_tx_pow_nonce,
        a->Trade_prev_block_hash.0@ == b->Trade_prev_block_hash.0@,
{
    lemma_trade_parts(a);
    lemma_trade_parts(b);
    lemma_seven_parts(trade_parts(a), trade_parts(b));
    le32_injective(a->Trade_outcome_index, b->Trade_outcome_index);
    signed_numbers_have_their_own_bytes(a->Trade_shares, b->Trade_shares);
    numbers_have_their_own_bytes(a->Trade_limit_sats, b->Trade_limit_sats);
    lemma_optional_numbers(a->Trade_tx_pow_nonce, b->Trade_tx_pow_nonce);
}

proof fn lemma_optional_numbers(x: Option<u64>, y: Option<u64>)
    requires
        x.encoding() == y.encoding(),
    ensures
        x == y,
{
    if x is Some && y is Some {
        lemma_split(seq![1u8], le64(x->0), seq![1u8], le64(y->0));
        numbers_have_their_own_bytes(x->0, y->0);
    } else if x is Some {
        assert(x.encoding()[0] == 1 && y.encoding()[0] == 0);
    } else if y is Some {
        assert(y.encoding()[0] == 1 && x.encoding()[0] == 0);
    }
}

/// Different additions to markets have different bytes.
pub proof fn additions_have_their_own_bytes(a: TransactionData, b: TransactionData)
    requires
        a is AmplifyBeta,
        b is AmplifyBeta,
        a.encoding() == b.encoding(),
    ensures
        a->AmplifyBeta_market_id.0@ == b->AmplifyBeta_market_id.0@,
        a->AmplifyBeta_amount == b->AmplifyBeta_amount,
        a->AmplifyBeta_market_author.0@ == b->AmplifyBeta_market_author.0@,
{
    let (a1, a2, a3) = (
        a->AmplifyBeta_market_id.encoding(),
        a->AmplifyBeta_amount.encoding(),
        a->AmplifyBeta_market_author.encoding(),
    );
    let (b1, b2, b3) = (
        b->AmplifyBeta_market_id.encoding(),
        b->AmplifyBeta_amount.encoding(),
        b->AmplifyBeta_market_author.encoding(),
    );
    let tag = seq![6u8];
    assert(a.encoding() =~= tag + (a1 + (a2 + a3)));
    assert(b.encoding() =~= tag + (b1 + (b2 + b3)));
    lemma_split(tag, a1 + (a2 + a3), tag, b1 + (b2 + b3));
    lemma_split(a1, a2 + a3, b1, b2 + b3);
    lemma_split(a2, a3, b2, b3);
    numbers_have_their_own_bytes(a->AmplifyBeta_amount, b->AmplifyBeta_amount);
}

/// Different transfers of reputation have different bytes.
pub proof fn transfers_have_their_own_bytes(a: TransactionData, b: TransactionData)
    requires
        a is TransferReputation,
        b is TransferReputation,
        a.encoding() == b.encoding(),
    ensures
        a->TransferReputation_sender.0@ == b->TransferReputation_sender.0@,
        a->TransferReputation_dest.0@ == b->TransferReputation_dest.0@,
        a->TransferReputation_amount == b->TransferReputation_amount,
{
    let (a1, a2, a3) = (
        a->TransferReputation_sender.encoding(),
        a->TransferReputation_dest.encoding(),
        a->TransferReputation_amount.encoding(),
    );
    let (b1, b2, b3) = (
        b->TransferReputation_sender.encoding(),
        b->TransferReputation_dest.encoding(),
        b->TransferReputation_amount.encoding(),
    );
    let tag = seq![5u8];
    assert(a.encoding() =~= tag + (a1 + (a2 + a3)));
    assert(b.encoding() =~= tag + (b1 + (b2 + b3)));
    lemma_split(tag, a1 + (a2 + a3), tag, b1 + (b2 + b3));
    lemma_split(a1, a2 + a3, b1, b2 + b3);
    lemma_split(a2, a3, b2, b3);
    numbers_have_their_own_bytes(
        a->TransferReputation_amount.bits,
        b->TransferReputation_amount.bits,
    );
}

/// Different votes have different bytes.
pub proof fn votes_have_their_own_bytes(a: TransactionData, b: TransactionData)
    requires
        a is SubmitVote,
        b is SubmitVote,
        a.encoding() == b.encoding(),
    ensures
        a->SubmitVote_voter.0@ == b->SubmitVote_voter.0@,
        a->SubmitVote_decision_id_bytes@ == b->SubmitVote_decision_id_bytes@,
        a->SubmitVote_vote_value == b->SubmitVote_vote_value,
        a->SubmitVote_voting_period == b->SubmitVote_voting_period,
{
    let (a1, a2, a3, a4) = (
        a->SubmitVote_voter.encoding(),
        a->SubmitVote_decision_id_bytes.encoding(),
        a->SubmitVote_vote_value.encoding(),
        a->SubmitVote_voting_period.encoding(),
    );
    let (b1, b2, b3, b4) = (
        b->SubmitVote_voter.encoding(),
        b->SubmitVote_decision_id_bytes.encoding(),
        b->SubmitVote_vote_value.encoding(),
        b->SubmitVote_voting_period.encoding(),
    );
    let tag = seq![3u8];
    assert(a.encoding() =~= tag + (a1 + (a2 + (a3 + a4))));
    assert(b.encoding() =~= tag + (b1 + (b2 + (b3 + b4))));
    lemma_split(tag, a1 + (a2 + (a3 + a4)), tag, b1 + (b2 + (b3 + b4)));
    lemma_split(a1, a2 + (a3 + a4), b1, b2 + (b3 + b4));
    lemma_split(a2, a3 + a4, b2, b3 + b4);
    lemma_split(a3, a4, b3, b4);
    numbers_have_their_own_bytes(a->SubmitVote_vote_value.bits, b->SubmitVote_vote_value.bits);
    le32_injective(a->SubmitVote_voting_period, b->SubmitVote_voting_period);
}

/// What a transaction does is told apart by its first byte.
pub proof fn kinds_are_told_apart(a: TransactionData)
    ensures
        a.encoding().len() > 0,
        a is ClaimDecision <==> a.encoding()[0] == 0,
        a is CreateMarket <==> a.encoding()[0] == 1,
        a is Trade <==> a.encoding()[0] == 2,
        a is SubmitVote <==> a.encoding()[0] == 3,
        a is SubmitBallot <==> a.encoding()[0] == 4,
        a is TransferReputation <==> a.encoding()[0] == 5,
        a is AmplifyBeta <==> a.encoding()[0] == 6,
{
}

} // verus!
