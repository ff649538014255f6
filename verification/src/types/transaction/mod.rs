//! Transactions, and the outpoints that they spend.

pub mod order;
pub mod output;

use vstd::prelude::*;
use vstd::std_specs::cmp::PartialEqSpecImpl;

pub use output::{
    AssetContent as AssetOutputContent, AssetOutput, BitcoinContent as BitcoinOutputContent,
    BitcoinOutput, Content as OutputContent, FilledContent as FilledOutputContent, FilledOutput,
    GetBitcoinValue, MainAddress, Output, Pointed as PointedOutput, SpentOutput, TxOutput,
    WithdrawalContent as WithdrawalOutputContent,
};

use crate::bytes::{append, from_le32, from_le32_of_le32, le32, push_le32, read_le32};
use crate::authorization::{address_bytes, Authorization};
use crate::bytes::{boxed, boxed_copy, lemma_array_equal, same_bytes, to_vec};
use crate::state::decisions::{Decision, DecisionType};
use crate::state::markets::{DimensionSpec, MarketId};
use crate::table::Key;
use crate::types::encoding::{Encode, EncodeError};
use crate::types::hashes::{blake3_hash, hash};
use crate::types::{boxed_duplicate, Address, AmountOverflowError, AssetId, BlockHash, Duplicate};
use crate::types::{M6id, MainOutPoint, MainTxid, MerkleRoot, Real, Txid};

verus! {

/// The name of an output.
#[derive(Clone, Copy, Debug, Eq, PartialOrd, Ord, Hash)]
pub enum OutPoint {
    /// Created by a transaction.
    Regular { txid: Txid, vout: u32 },
    /// Created by a block body.
    Coinbase { merkle_root: MerkleRoot, vout: u32 },
    /// Created by a mainchain deposit.
    Deposit(MainOutPoint),
    /// The funds of a market: its treasury, or the fees of its author.
    MarketFunds { market_id: [u8; 6], block_height: u32, is_fee: bool },
    /// Created when a trade or a market is settled.
    Payout { hash: MerkleRoot, vout: u32 },
}

impl PartialEq for OutPoint {
    fn eq(&self, other: &Self) -> (r: bool) {
        match (self, other) {
            (
                OutPoint::Regular { txid: a, vout: i },
                OutPoint::Regular { txid: b, vout: j },
            ) => *a == *b && *i == *j,
            (
                OutPoint::Coinbase { merkle_root: a, vout: i },
                OutPoint::Coinbase { merkle_root: b, vout: j },
            ) => *a == *b && *i == *j,
            (OutPoint::Deposit(a), OutPoint::Deposit(b)) => *a == *b,
            (
                OutPoint::MarketFunds { market_id: a, block_height: i, is_fee: x },
                OutPoint::MarketFunds { market_id: b, block_height: j, is_fee: y },
            ) => same_bytes(a, b) && *i == *j && *x == *y,
            (
                OutPoint::Payout { hash: a, vout: i },
                OutPoint::Payout { hash: b, vout: j },
            ) => *a == *b && *i == *j,
            _ => false,
        }
    }
}

impl PartialEqSpecImpl for OutPoint {
    open spec fn obeys_eq_spec() -> bool {
        true
    }

    open spec fn eq_spec(&self, other: &Self) -> bool {
        *self == *other
    }
}

impl Encode for OutPoint {
    open spec fn encodable(&self) -> bool {
        true
    }

    open spec fn encoding(&self) -> Seq<u8> {
        match *self {
            OutPoint::Regular { txid, vout } => seq![0u8] + txid.0@ + le32(vout),
            OutPoint::Coinbase { merkle_root, vout } => seq![1u8] + merkle_root.0@ + le32(vout),
            OutPoint::Deposit(outpoint) => seq![2u8] + outpoint.txid.0@ + le32(outpoint.vout),
            OutPoint::MarketFunds { market_id, block_height, is_fee } => seq![3u8] + market_id@
                + le32(block_height) + seq![if is_fee { 1u8 } else { 0u8 }],
            OutPoint::Payout { hash, vout } => seq![4u8] + hash.0@ + le32(vout),
        }
    }

    fn encode(&self, buf: &mut Vec<u8>) -> (r: Result<(), EncodeError>) {
        match self {
            OutPoint::Regular { txid, vout } => {
                buf.push(0);
                append(buf, txid.0.as_slice());
                push_le32(buf, *vout);
            },
            OutPoint::Coinbase { merkle_root, vout } => {
                buf.push(1);
                append(buf, merkle_root.0.as_slice());
                push_le32(buf, *vout);
            },
            OutPoint::Deposit(outpoint) => {
                buf.push(2);
                append(buf, outpoint.txid.0.as_slice());
                push_le32(buf, outpoint.vout);
            },
            OutPoint::MarketFunds { market_id, block_height, is_fee } => {
                buf.push(3);
                append(buf, market_id.as_slice());
                push_le32(buf, *block_height);
                buf.push(if *is_fee { 1 } else { 0 });
            },
            OutPoint::Payout { hash, vout } => {
                buf.push(4);
                append(buf, hash.0.as_slice());
                push_le32(buf, *vout);
            },
        }
        assert(buf@ =~= old(buf)@ + self.encoding());
        Ok(())
    }
}

pub const OUTPOINT_KEY_SIZE: usize = 37;

/// The encoding of an outpoint, padded with zeros to 37 bytes.
pub open spec fn outpoint_key(op: OutPoint) -> Seq<u8> {
    op.encoding() + Seq::new((37 - op.encoding().len()) as nat, |i: int| 0u8)
}

/// 37 bytes hold an outpoint. What follows it is not looked at.
pub open spec fn key_holds(bytes: Seq<u8>, op: OutPoint) -> bool {
    match op {
        OutPoint::Regular { txid, vout } => {
            bytes[0] == 0 && bytes.subrange(1, 33) == txid.0@ && from_le32(bytes, 33) == vout
        },
        OutPoint::Coinbase { merkle_root, vout } => {
            bytes[0] == 1 && bytes.subrange(1, 33) == merkle_root.0@ && from_le32(bytes, 33) == vout
        },
        OutPoint::Deposit(outpoint) => {
            bytes[0] == 2 && bytes.subrange(1, 33) == outpoint.txid.0@ && from_le32(bytes, 33)
                == outpoint.vout
        },
        OutPoint::MarketFunds { market_id, block_height, is_fee } => {
            bytes[0] == 3 && bytes.subrange(1, 7) == market_id@ && from_le32(bytes, 7)
                == block_height && bytes[11] == if is_fee {
                1u8
            } else {
                0u8
            }
        },
        OutPoint::Payout { hash, vout } => {
            bytes[0] == 4 && bytes.subrange(1, 33) == hash.0@ && from_le32(bytes, 33) == vout
        },
    }
}

/// 37 bytes hold some outpoint.
pub open spec fn key_is_valid(bytes: Seq<u8>) -> bool {
    bytes[0] <= 4 && (bytes[0] == 3 ==> bytes[11] <= 1)
}

/// The key of an outpoint holds it.
pub proof fn outpoint_key_holds(op: OutPoint)
    ensures
        outpoint_key(op).len() == 37,
        key_holds(outpoint_key(op), op),
        key_is_valid(outpoint_key(op)),
{
    let key = outpoint_key(op);
    match op {
        OutPoint::Regular { txid, vout } => {
            assert(key.subrange(1, 33) =~= txid.0@);
            from_le32_of_le32(vout);
            assert(key.subrange(33, 37) =~= le32(vout));
            assert(forall|i: int| 33 <= i < 37 ==> key[i] == le32(vout)[i - 33]);
        },
        OutPoint::Coinbase { merkle_root, vout } => {
            assert(key.subrange(1, 33) =~= merkle_root.0@);
            from_le32_of_le32(vout);
            assert(forall|i: int| 33 <= i < 37 ==> key[i] == le32(vout)[i - 33]);
        },
        OutPoint::Deposit(outpoint) => {
            assert(key.subrange(1, 33) =~= outpoint.txid.0@);
            from_le32_of_le32(outpoint.vout);
            assert(forall|i: int| 33 <= i < 37 ==> key[i] == le32(outpoint.vout)[i - 33]);
        },
        OutPoint::MarketFunds { market_id, block_height, is_fee } => {
            assert(key.subrange(1, 7) =~= market_id@);
            from_le32_of_le32(block_height);
            assert(forall|i: int| 7 <= i < 11 ==> key[i] == le32(block_height)[i - 7]);
        },
        OutPoint::Payout { hash, vout } => {
            assert(key.subrange(1, 33) =~= hash.0@);
            from_le32_of_le32(vout);
            assert(forall|i: int| 33 <= i < 37 ==> key[i] == le32(vout)[i - 33]);
        },
    }
}

/// Bytes hold at most one outpoint.
pub proof fn key_holds_one(bytes: Seq<u8>, a: OutPoint, b: OutPoint)
    requires
        key_holds(bytes, a),
        key_holds(bytes, b),
    ensures
        a == b,
{
    match (a, b) {
        (OutPoint::Regular { txid: x, .. }, OutPoint::Regular { txid: y, .. }) => {
            lemma_array_equal(x.0, y.0);
        },
        (
            OutPoint::Coinbase { merkle_root: x, .. },
            OutPoint::Coinbase { merkle_root: y, .. },
        ) => {
            lemma_array_equal(x.0, y.0);
        },
        (OutPoint::Deposit(x), OutPoint::Deposit(y)) => {
            lemma_array_equal(x.txid.0, y.txid.0);
        },
        (
            OutPoint::MarketFunds { market_id: x, .. },
            OutPoint::MarketFunds { market_id: y, .. },
        ) => {
            lemma_array_equal(x, y);
        },
        (OutPoint::Payout { hash: x, .. }, OutPoint::Payout { hash: y, .. }) => {
            lemma_array_equal(x.0, y.0);
        },
        _ => {},
    }
}

impl Key for OutPoint {
    open spec fn key_bytes(&self) -> Seq<u8> {
        outpoint_key(*self)
    }

    proof fn key_bytes_injective(a: Self, b: Self) {
        outpoint_key_holds(a);
        outpoint_key_holds(b);
        key_holds_one(outpoint_key(a), a, b);
    }

    fn to_key_bytes(&self) -> (r: Vec<u8>) {
        to_vec(OutPointKey::from_outpoint(self).0.as_slice())
    }
}

/// A key of fixed width for an outpoint.
#[derive(Clone, Copy, Debug, Eq, Hash, PartialOrd, Ord)]
pub struct OutPointKey(pub [u8; 37]);

impl PartialEq for OutPointKey {
    fn eq(&self, other: &Self) -> (r: bool) {
        same_bytes(&self.0, &other.0)
    }
}

impl PartialEqSpecImpl for OutPointKey {
    open spec fn obeys_eq_spec() -> bool {
        true
    }

    open spec fn eq_spec(&self, other: &Self) -> bool {
        *self == *other
    }
}

fn copy_32(bytes: &[u8; 37]) -> (r: [u8; 32])
    ensures
        r@ == bytes@.subrange(1, 33),
{
    let mut r = [0u8; 32];
    let mut i: usize = 0;
    while i < 32
        invariant
            i <= 32,
            forall|j: int| 0 <= j < i ==> r@[j] == bytes@[j + 1],
        decreases 32 - i,
    {
        r[i] = bytes[i + 1];
        i += 1;
    }
    assert(r@ =~= bytes@.subrange(1, 33));
    r
}

impl OutPointKey {
    /// Encodes an outpoint.
    pub fn from_outpoint(op: &OutPoint) -> (r: Self)
        ensures
            r.0@ == outpoint_key(*op),
    {
        let mut buf: Vec<u8> = Vec::new();
        let _ = op.encode(&mut buf);
        let mut key = [0u8; 37];
        let mut i: usize = 0;
        proof {
            outpoint_key_holds(*op);
            assert(buf@ =~= op.encoding());
        }
        while i < buf.len()
            invariant
                i <= buf@.len(),
                buf@ == op.encoding(),
                buf@.len() <= 37,
                forall|j: int| 0 <= j < i ==> key@[j] == buf@[j],
                forall|j: int| i <= j < 37 ==> key@[j] == 0,
            decreases buf@.len() - i,
        {
            key[i] = buf[i];
            i += 1;
        }
        assert(key@ =~= outpoint_key(*op));
        OutPointKey(key)
    }

    pub fn as_bytes(&self) -> (r: &[u8; 37])
        ensures
            *r == self.0,
    {
        &self.0
    }

    /// Decodes the outpoint.
    pub fn to_outpoint(&self) -> (r: OutPoint)
        requires
            key_is_valid(self.0@),
        ensures
            key_holds(self.0@, r),
    {
        let tag: u8 = self.0[0];
        if tag == 3 {
            let market_id = [
                self.0[1],
                self.0[2],
                self.0[3],
                self.0[4],
                self.0[5],
                self.0[6],
            ];
            assert(market_id@ =~= self.0@.subrange(1, 7));
            return OutPoint::MarketFunds {
                market_id,
                block_height: read_le32(self.0.as_slice(), 7),
                is_fee: self.0[11] == 1,
            };
        }
        let hash = copy_32(&self.0);
        let vout: u32 = read_le32(self.0.as_slice(), 33);
        if tag == 0 {
            OutPoint::Regular { txid: Txid(hash), vout }
        } else if tag == 1 {
            OutPoint::Coinbase { merkle_root: MerkleRoot(hash), vout }
        } else if tag == 2 {
            OutPoint::Deposit(MainOutPoint { txid: MainTxid(hash), vout })
        } else {
            OutPoint::Payout { hash: MerkleRoot(hash), vout }
        }
    }

    /// Reads a key: 37 bytes that hold an outpoint.
    pub fn from_slice(bytes: &[u8]) -> (r: Option<Self>)
        ensures
            match r {
                Some(key) => bytes@.len() == 37 && key_is_valid(bytes@) && key.0@ == bytes@,
                None => bytes@.len() != 37 || !key_is_valid(bytes@),
            },
    {
        if bytes.len() != 37 {
            return None;
        }
        if bytes[0] > 4 || (bytes[0] == 3 && bytes[11] > 1) {
            return None;
        }
        let mut key = [0u8; 37];
        let mut i: usize = 0;
        while i < 37
            invariant
                i <= 37,
                bytes@.len() == 37,
                forall|j: int| 0 <= j < i ==> key@[j] == bytes@[j],
            decreases 37 - i,
        {
            key[i] = bytes[i];
            i += 1;
        }
        assert(key@ =~= bytes@);
        Some(OutPointKey(key))
    }
}

/// The key of an outpoint decodes to it: whatever `to_outpoint` gives for the
/// key is the outpoint.
pub proof fn outpoint_key_round_trip(op: OutPoint, decoded: OutPoint)
    requires
        key_holds(outpoint_key(op), decoded),
    ensures
        decoded == op,
{
    outpoint_key_holds(op);
    key_holds_one(outpoint_key(op), op, decoded);
}

/// Different outpoints have different keys.
pub proof fn outpoint_keys_differ(a: OutPoint, b: OutPoint)
    requires
        a != b,
    ensures
        outpoint_key(a) != outpoint_key(b),
{
    if outpoint_key(a) == outpoint_key(b) {
        OutPoint::key_bytes_injective(a, b);
    }
}

/// Where an output was spent.
#[derive(Clone, Copy, Debug, Eq, Hash)]
pub enum InPoint {
    /// By an input of a transaction.
    Regular { txid: Txid, vin: u32 },
    /// By a withdrawal to the mainchain.
    Withdrawal { m6id: M6id },
    /// By an operation of the system.
    Redistribution,
}

impl PartialEq for InPoint {
    fn eq(&self, other: &Self) -> (r: bool) {
        match (self, other) {
            (
                InPoint::Regular { txid: a, vin: i },
                InPoint::Regular { txid: b, vin: j },
            ) => *a == *b && *i == *j,
            (InPoint::Withdrawal { m6id: a }, InPoint::Withdrawal { m6id: b }) => *a == *b,
            (InPoint::Redistribution, InPoint::Redistribution) => true,
            _ => false,
        }
    }
}

impl PartialEqSpecImpl for InPoint {
    open spec fn obeys_eq_spec() -> bool {
        true
    }

    open spec fn eq_spec(&self, other: &Self) -> bool {
        *self == *other
    }
}

/// What is appended piece by piece is appended in one.
proof fn lemma_append(start: Seq<u8>, done: Seq<u8>, piece: Seq<u8>)
    ensures
        (start + done) + piece == start + (done + piece),
{
    assert((start + done) + piece =~= start + (done + piece));
}

pub type TxInputs = Box<[OutPoint]>;

pub type TxOutputs = Box<[TxOutput]>;

/// One vote of a ballot.
#[derive(Clone, Copy, Debug, PartialEq)]
pub struct BallotItem {
    pub decision_id_bytes: [u8; 3],
    pub vote_value: Real,
}

impl Duplicate for BallotItem {
    fn duplicate(&self) -> (r: Self) {
        *self
    }
}

impl Encode for BallotItem {
    open spec fn encodable(&self) -> bool {
        self.decision_id_bytes.encodable() && self.vote_value.encodable()
    }

    open spec fn encoding(&self) -> Seq<u8> {
        self.decision_id_bytes.encoding() + self.vote_value.encoding()
    }

    fn encode(&self, buf: &mut Vec<u8>) -> (r: Result<(), EncodeError>) {
        match self.decision_id_bytes.encode(buf) {
            Ok(()) => {},
            Err(e) => return Err(e),
        }
        match self.vote_value.encode(buf) {
            Ok(()) => {},
            Err(e) => return Err(e),
        }
        assert(buf@ =~= old(buf)@ + self.encoding());
        Ok(())
    }
}

/// A decision that a transaction claims.
#[derive(Debug, PartialEq)]
pub struct DecisionClaimEntry {
    pub decision_id_bytes: [u8; 3],
    pub header: String,
    pub description: String,
    pub option_0_label: Option<String>,
    pub option_1_label: Option<String>,
    pub option_labels: Option<Box<[String]>>,
    pub tags: Option<Box<[String]>>,
}

impl Duplicate for DecisionClaimEntry {
    fn duplicate(&self) -> (r: Self) {
        DecisionClaimEntry {
            decision_id_bytes: self.decision_id_bytes,
            header: self.header.duplicate(),
            description: self.description.duplicate(),
            option_0_label: self.option_0_label.duplicate(),
            option_1_label: self.option_1_label.duplicate(),
            option_labels: match &self.option_labels {
                Some(v) => Some(boxed_duplicate(v)),
                None => None,
            },
            tags: match &self.tags {
                Some(v) => Some(boxed_duplicate(v)),
                None => None,
            },
        }
    }
}

impl Clone for DecisionClaimEntry {
    fn clone(&self) -> (r: Self)
        ensures
            r == *self,
    {
        self.duplicate()
    }
}

impl Encode for DecisionClaimEntry {
    open spec fn encodable(&self) -> bool {
        self.decision_id_bytes.encodable()
            && self.header.encodable()
            && self.description.encodable()
            && self.option_0_label.encodable()
            && self.option_1_label.encodable()
            && self.option_labels.encodable()
            && self.tags.encodable()
    }

    open spec fn encoding(&self) -> Seq<u8> {
        self.decision_id_bytes.encoding()
            + self.header.encoding()
            + self.description.encoding()
            + self.option_0_label.encoding()
            + self.option_1_label.encoding()
            + self.option_labels.encoding()
            + self.tags.encoding()
    }

    fn encode(&self, buf: &mut Vec<u8>) -> (r: Result<(), EncodeError>) {
        match self.decision_id_bytes.encode(buf) {
            Ok(()) => {},
            Err(e) => return Err(e),
        }
        let ghost mut done = self.decision_id_bytes.encoding();
        match self.header.encode(buf) {
            Ok(()) => {},
            Err(e) => return Err(e),
        }
        proof {
            lemma_append(old(buf)@, done, self.header.encoding());
            done = done + self.header.encoding();
        }
        match self.description.encode(buf) {
            Ok(()) => {},
            Err(e) => return Err(e),
        }
        proof {
            lemma_append(old(buf)@, done, self.description.encoding());
            done = done + self.description.encoding();
        }
        match self.option_0_label.encode(buf) {
            Ok(()) => {},
            Err(e) => return Err(e),
        }
        proof {
            lemma_append(old(buf)@, done, self.option_0_label.encoding());
            done = done + self.option_0_label.encoding();
        }
        match self.option_1_label.encode(buf) {
            Ok(()) => {},
            Err(e) => return Err(e),
        }
        proof {
            lemma_append(old(buf)@, done, self.option_1_label.encoding());
            done = done + self.option_1_label.encoding();
        }
        match self.option_labels.encode(buf) {
            Ok(()) => {},
            Err(e) => return Err(e),
        }
        proof {
            lemma_append(old(buf)@, done, self.option_labels.encoding());
            done = done + self.option_labels.encoding();
        }
        match self.tags.encode(buf) {
            Ok(()) => {},
            Err(e) => return Err(e),
        }
        proof {
            lemma_append(old(buf)@, done, self.tags.encoding());
            done = done + self.tags.encoding();
        }
        Ok(())
    }
}

impl Encode for DecisionType {
    open spec fn encodable(&self) -> bool {
        match *self {
            DecisionType::Binary => true,
            DecisionType::Scaled { min, max, increment } => min.encodable() && max.encodable()
                && increment.encodable(),
            DecisionType::Category { options } => options.encodable(),
        }
    }

    open spec fn encoding(&self) -> Seq<u8> {
        match *self {
            DecisionType::Binary => seq![0u8],
            DecisionType::Scaled { min, max, increment } => seq![1u8] + min.encoding()
                + max.encoding() + increment.encoding(),
            DecisionType::Category { options } => seq![2u8] + options.encoding(),
        }
    }

    fn encode(&self, buf: &mut Vec<u8>) -> (r: Result<(), EncodeError>) {
        match self {
            DecisionType::Binary => {
                buf.push(0);
            },
            DecisionType::Scaled { min, max, increment } => {
                buf.push(1);
                match min.encode(buf) {
                    Ok(()) => {},
                    Err(e) => return Err(e),
                }
                match max.encode(buf) {
                    Ok(()) => {},
                    Err(e) => return Err(e),
                }
                match increment.encode(buf) {
                    Ok(()) => {},
                    Err(e) => return Err(e),
                }
            },
            DecisionType::Category { options } => {
                buf.push(2);
                match options.encode(buf) {
                    Ok(()) => {},
                    Err(e) => return Err(e),
                }
            },
        }
        assert(buf@ =~= old(buf)@ + self.encoding());
        Ok(())
    }
}

impl Encode for Decision {
    open spec fn encodable(&self) -> bool {
        &&& self.decision_type.encodable()
        &&& self.header.encodable()
        &&& self.description.encodable()
        &&& self.option_0_label.encodable()
        &&& self.option_1_label.encodable()
        &&& self.tags.encodable()
    }

    open spec fn encoding(&self) -> Seq<u8> {
        self.market_maker_pubkey_hash@ + self.decision_type.encoding() + self.header.encoding()
            + self.description.encoding() + self.option_0_label.encoding()
            + self.option_1_label.encoding() + self.tags.encoding()
    }

    fn encode(&self, buf: &mut Vec<u8>) -> (r: Result<(), EncodeError>) {
        append(buf, self.market_maker_pubkey_hash.as_slice());
        match self.decision_type.encode(buf) {
            Ok(()) => {},
            Err(e) => return Err(e),
        }
        match self.header.encode(buf) {
            Ok(()) => {},
            Err(e) => return Err(e),
        }
        match self.description.encode(buf) {
            Ok(()) => {},
            Err(e) => return Err(e),
        }
        match self.option_0_label.encode(buf) {
            Ok(()) => {},
            Err(e) => return Err(e),
        }
        match self.option_1_label.encode(buf) {
            Ok(()) => {},
            Err(e) => return Err(e),
        }
        match self.tags.encode(buf) {
            Ok(()) => {},
            Err(e) => return Err(e),
        }
        assert(buf@ =~= old(buf)@ + self.encoding());
        Ok(())
    }
}

/// Decisions of one type that a transaction claims: one, or for a category
/// more.
#[derive(Debug, PartialEq)]
pub struct ClaimDecisionPayload {
    pub decision_type: DecisionType,
    pub decisions: Box<[DecisionClaimEntry]>,
}

impl Duplicate for ClaimDecisionPayload {
    fn duplicate(&self) -> (r: Self) {
        ClaimDecisionPayload {
            decision_type: self.decision_type.duplicate(),
            decisions: boxed_duplicate(&self.decisions),
        }
    }
}

impl Clone for ClaimDecisionPayload {
    fn clone(&self) -> (r: Self)
        ensures
            r == *self,
    {
        self.duplicate()
    }
}

impl Encode for ClaimDecisionPayload {
    open spec fn encodable(&self) -> bool {
        self.decision_type.encodable() && self.decisions.encodable()
    }

    open spec fn encoding(&self) -> Seq<u8> {
        self.decision_type.encoding() + self.decisions.encoding()
    }

    fn encode(&self, buf: &mut Vec<u8>) -> (r: Result<(), EncodeError>) {
        match self.decision_type.encode(buf) {
            Ok(()) => {},
            Err(e) => return Err(e),
        }
        match self.decisions.encode(buf) {
            Ok(()) => {},
            Err(e) => return Err(e),
        }
        assert(buf@ =~= old(buf)@ + self.encoding());
        Ok(())
    }
}

impl Encode for DimensionSpec {
    open spec fn encodable(&self) -> bool {
        true
    }

    open spec fn encoding(&self) -> Seq<u8> {
        match *self {
            DimensionSpec::Single(id) => seq![0u8] + id.0@,
            DimensionSpec::Categorical(id) => seq![1u8] + id.0@,
        }
    }

    fn encode(&self, buf: &mut Vec<u8>) -> (r: Result<(), EncodeError>) {
        match self {
            DimensionSpec::Single(id) => {
                buf.push(0);
                append(buf, id.0.as_slice());
            },
            DimensionSpec::Categorical(id) => {
                buf.push(1);
                append(buf, id.0.as_slice());
            },
        }
        assert(buf@ =~= old(buf)@ + self.encoding());
        Ok(())
    }
}

impl Encode for MarketId {
    open spec fn encodable(&self) -> bool {
        true
    }

    open spec fn encoding(&self) -> Seq<u8> {
        self.0@
    }

    fn encode(&self, buf: &mut Vec<u8>) -> (r: Result<(), EncodeError>) {
        append(buf, self.0.as_slice());
        Ok(())
    }
}

/// What a transaction does besides moving bitcoin.
#[allow(inconsistent_fields)]
#[derive(Debug, PartialEq)]
pub enum TransactionData {
    /// Claims decisions.
    ClaimDecision(ClaimDecisionPayload),
    /// Creates a market. Its treasury is an output of the transaction.
    CreateMarket {
        title: String,
        description: String,
        dimension_specs: Box<[DimensionSpec]>,
        new_claims: Box<[ClaimDecisionPayload]>,
        trading_fee: Option<Real>,
        tx_pow_hash_selector: Option<u8>,
        tx_pow_ordering: Option<u8>,
        tx_pow_difficulty: Option<u8>,
    },
    /// Buys or sells shares.
    Trade {
        market_id: MarketId,
        outcome_index: u32,
        shares: i64,
        trader: Address,
        limit_sats: u64,
        tx_pow_nonce: Option<u64>,
        prev_block_hash: BlockHash,
    },
    /// Votes on a decision.
    SubmitVote { voter: Address, decision_id_bytes: [u8; 3], vote_value: Real, voting_period: u32 },
    /// Votes on several decisions.
    SubmitBallot { voter: Address, votes: Box<[BallotItem]>, voting_period: u32 },
    TransferReputation { sender: Address, dest: Address, amount: Real },
    /// Deepens a market by funding its treasury.
    AmplifyBeta { market_id: MarketId, amount: u64, market_author: Address },
}

pub type TxData = TransactionData;

impl Duplicate for TransactionData {
    fn duplicate(&self) -> (r: Self) {
        match self {
            TransactionData::ClaimDecision(payload) => TransactionData::ClaimDecision(payload.duplicate()),
            TransactionData::CreateMarket {
                title,
                description,
                dimension_specs,
                new_claims,
                trading_fee,
                tx_pow_hash_selector,
                tx_pow_ordering,
                tx_pow_difficulty,
            } => TransactionData::CreateMarket {
                title: title.duplicate(),
                description: description.duplicate(),
                dimension_specs: boxed_copy(dimension_specs),
                new_claims: boxed_duplicate(new_claims),
                trading_fee: *trading_fee,
                tx_pow_hash_selector: *tx_pow_hash_selector,
                tx_pow_ordering: *tx_pow_ordering,
                tx_pow_difficulty: *tx_pow_difficulty,
            },
            TransactionData::Trade {
                market_id,
                outcome_index,
                shares,
                trader,
                limit_sats,
                tx_pow_nonce,
                prev_block_hash,
            } => TransactionData::Trade {
                market_id: *market_id,
                outcome_index: *outcome_index,
                shares: *shares,
                trader: *trader,
                limit_sats: *limit_sats,
                tx_pow_nonce: *tx_pow_nonce,
                prev_block_hash: *prev_block_hash,
            },
            TransactionData::SubmitVote {
                voter,
                decision_id_bytes,
                vote_value,
                voting_period,
            } => TransactionData::SubmitVote {
                voter: *voter,
                decision_id_bytes: *decision_id_bytes,
                vote_value: *vote_value,
                voting_period: *voting_period,
            },
            TransactionData::SubmitBallot {
                voter,
                votes,
                voting_period,
            } => TransactionData::SubmitBallot {
                voter: *voter,
                votes: boxed_copy(votes),
                voting_period: *voting_period,
            },
            TransactionData::TransferReputation {
                sender,
                dest,
                amount,
            } => TransactionData::TransferReputation {
                sender: *sender,
                dest: *dest,
                amount: *amount,
            },
            TransactionData::AmplifyBeta {
                market_id,
                amount,
                market_author,
            } => TransactionData::AmplifyBeta {
                market_id: *market_id,
                amount: *amount,
                market_author: *market_author,
            },
        }
    }
}

impl Clone for TransactionData {
    fn clone(&self) -> (r: Self)
        ensures
            r == *self,
    {
        self.duplicate()
    }
}

impl Encode for TransactionData {
    open spec fn encodable(&self) -> bool {
        match *self {
            TransactionData::ClaimDecision(payload) => {
                payload.encodable()
            },
            TransactionData::CreateMarket {
                title,
                description,
                dimension_specs,
                new_claims,
                trading_fee,
                tx_pow_hash_selector,
                tx_pow_ordering,
                tx_pow_difficulty,
            } => {
                title.encodable()
                    && description.encodable()
                    && dimension_specs.encodable()
                    && new_claims.encodable()
                    && trading_fee.encodable()
                    && tx_pow_hash_selector.encodable()
                    && tx_pow_ordering.encodable()
                    && tx_pow_difficulty.encodable()
            },
            TransactionData::Trade {
                market_id,
                outcome_index,
                shares,
                trader,
                limit_sats,
                tx_pow_nonce,
                prev_block_hash,
            } => {
                market_id.encodable()
                    && outcome_index.encodable()
                    && shares.encodable()
                    && trader.encodable()
                    && limit_sats.encodable()
                    && tx_pow_nonce.encodable()
                    && prev_block_hash.encodable()
            },
            TransactionData::SubmitVote { voter, decision_id_bytes, vote_value, voting_period } => {
                voter.encodable()
                    && decision_id_bytes.encodable()
                    && vote_value.encodable()
                    && voting_period.encodable()
            },
            TransactionData::SubmitBallot { voter, votes, voting_period } => {
                voter.encodable()
                    && votes.encodable()
                    && voting_period.encodable()
            },
            TransactionData::TransferReputation { sender, dest, amount } => {
                sender.encodable()
                    && dest.encodable()
                    && amount.encodable()
            },
            TransactionData::AmplifyBeta { market_id, amount, market_author } => {
                market_id.encodable()
                    && amount.encodable()
                    && market_author.encodable()
            },
        }
    }

    open spec fn encoding(&self) -> Seq<u8> {
        match *self {
            TransactionData::ClaimDecision(payload) => {
                seq![0u8] + payload.encoding()
            },
            TransactionData::CreateMarket {
                title,
                description,
                dimension_specs,
                new_claims,
                trading_fee,
                tx_pow_hash_selector,
                tx_pow_ordering,
                tx_pow_difficulty,
            } => {
                seq![1u8]
                    + title.encoding()
                    + description.encoding()
                    + dimension_specs.encoding()
                    + new_claims.encoding()
                    + trading_fee.encoding()
                    + tx_pow_hash_selector.encoding()
                    + tx_pow_ordering.encoding()
                    + tx_pow_difficulty.encoding()
            },
            TransactionData::Trade {
                market_id,
                outcome_index,
                shares,
                trader,
                limit_sats,
                tx_pow_nonce,
                prev_block_hash,
            } => {
                seq![2u8]
                    + market_id.encoding()
                    + outcome_index.encoding()
                    + shares.encoding()
                    + trader.encoding()
                    + limit_sats.encoding()
                    + tx_pow_nonce.encoding()
                    + prev_block_hash.encoding()
            },
            TransactionData::SubmitVote { voter, decision_id_bytes, vote_value, voting_period } => {
                seq![3u8]
                    + voter.encoding()
                    + decision_id_bytes.encoding()
                    + vote_value.encoding()
                    + voting_period.encoding()
            },
            TransactionData::SubmitBallot { voter, votes, voting_period } => {
                seq![4u8] + voter.encoding() + votes.encoding() + voting_period.encoding()
            },
            TransactionData::TransferReputation { sender, dest, amount } => {
                seq![5u8] + sender.encoding() + dest.encoding() + amount.encoding()
            },
            TransactionData::AmplifyBeta { market_id, amount, market_author } => {
                seq![6u8] + market_id.encoding() + amount.encoding() + market_author.encoding()
            },
        }
    }

    fn encode(&self, buf: &mut Vec<u8>) -> (r: Result<(), EncodeError>) {
        match self {
            TransactionData::ClaimDecision(payload) => {
                buf.push(0);
                let ghost mut done = seq![0u8];
                assert(buf@ =~= old(buf)@ + done);
                match payload.encode(buf) {
                    Ok(()) => {},
                    Err(e) => return Err(e),
                }
                proof {
                    lemma_append(old(buf)@, done, payload.encoding());
                    done = done + payload.encoding();
                }
            },
            TransactionData::CreateMarket {
                title,
                description,
                dimension_specs,
                new_claims,
                trading_fee,
                tx_pow_hash_selector,
                tx_pow_ordering,
                tx_pow_difficulty,
            } => {
                buf.push(1);
                let ghost mut done = seq![1u8];
                assert(buf@ =~= old(buf)@ + done);
                match title.encode(buf) {
                    Ok(()) => {},
                    Err(e) => return Err(e),
                }
                proof {
                    lemma_append(old(buf)@, done, title.encoding());
                    done = done + title.encoding();
                }
                match description.encode(buf) {
                    Ok(()) => {},
                    Err(e) => return Err(e),
                }
                proof {
                    lemma_append(old(buf)@, done, description.encoding());
                    done = done + description.encoding();
                }
                match dimension_specs.encode(buf) {
                    Ok(()) => {},
                    Err(e) => return Err(e),
                }
                proof {
                    lemma_append(old(buf)@, done, dimension_specs.encoding());
                    done = done + dimension_specs.encoding();
                }
                match new_claims.encode(buf) {
                    Ok(()) => {},
                    Err(e) => return Err(e),
                }
                proof {
                    lemma_append(old(buf)@, done, new_claims.encoding());
                    done = done + new_claims.encoding();
                }
                match trading_fee.encode(buf) {
                    Ok(()) => {},
                    Err(e) => return Err(e),
                }
                proof {
                    lemma_append(old(buf)@, done, trading_fee.encoding());
                    done = done + trading_fee.encoding();
                }
                match tx_pow_hash_selector.encode(buf) {
                    Ok(()) => {},
                    Err(e) => return Err(e),
                }
                proof {
                    lemma_append(old(buf)@, done, tx_pow_hash_selector.encoding());
                    done = done + tx_pow_hash_selector.encoding();
                }
                match tx_pow_ordering.encode(buf) {
                    Ok(()) => {},
                    Err(e) => return Err(e),
                }
                proof {
                    lemma_append(old(buf)@, done, tx_pow_ordering.encoding());
                    done = done + tx_pow_ordering.encoding();
                }
                match tx_pow_difficulty.encode(buf) {
                    Ok(()) => {},
                    Err(e) => return Err(e),
                }
                proof {
                    lemma_append(old(buf)@, done, tx_pow_difficulty.encoding());
                    done = done + tx_pow_difficulty.encoding();
                }
            },
            TransactionData::Trade {
                market_id,
                outcome_index,
                shares,
                trader,
                limit_sats,
                tx_pow_nonce,
                prev_block_hash,
            } => {
                buf.push(2);
                let ghost mut done = seq![2u8];
                assert(buf@ =~= old(buf)@ + done);
                match market_id.encode(buf) {
                    Ok(()) => {},
                    Err(e) => return Err(e),
                }
                proof {
                    lemma_append(old(buf)@, done, market_id.encoding());
                    done = done + market_id.encoding();
                }
                match outcome_index.encode(buf) {
                    Ok(()) => {},
                    Err(e) => return Err(e),
                }
                proof {
                    lemma_append(old(buf)@, done, outcome_index.encoding());
                    done = done + outcome_index.encoding();
                }
                match shares.encode(buf) {
                    Ok(()) => {},
                    Err(e) => return Err(e),
                }
                proof {
                    lemma_append(old(buf)@, done, shares.encoding());
                    done = done + shares.encoding();
                }
                match trader.encode(buf) {
                    Ok(()) => {},
                    Err(e) => return Err(e),
                }
                proof {
                    lemma_append(old(buf)@, done, trader.encoding());
                    done = done + trader.encoding();
                }
                match limit_sats.encode(buf) {
                    Ok(()) => {},
                    Err(e) => return Err(e),
                }
                proof {
                    lemma_append(old(buf)@, done, limit_sats.encoding());
                    done = done + limit_sats.encoding();
                }
                match tx_pow_nonce.encode(buf) {
                    Ok(()) => {},
                    Err(e) => return Err(e),
                }
                proof {
                    lemma_append(old(buf)@, done, tx_pow_nonce.encoding());
                    done = done + tx_pow_nonce.encoding();
                }
                match prev_block_hash.encode(buf) {
                    Ok(()) => {},
                    Err(e) => return Err(e),
                }
                proof {
                    lemma_append(old(buf)@, done, prev_block_hash.encoding());
                    done = done + prev_block_hash.encoding();
                }
            },
            TransactionData::SubmitVote { voter, decision_id_bytes, vote_value, voting_period } => {
                buf.push(3);
                let ghost mut done = seq![3u8];
                assert(buf@ =~= old(buf)@ + done);
                match voter.encode(buf) {
                    Ok(()) => {},
                    Err(e) => return Err(e),
                }
                proof {
                    lemma_append(old(buf)@, done, voter.encoding());
                    done = done + voter.encoding();
                }
                match decision_id_bytes.encode(buf) {
                    Ok(()) => {},
                    Err(e) => return Err(e),
                }
                proof {
                    lemma_append(old(buf)@, done, decision_id_bytes.encoding());
                    done = done + decision_id_bytes.encoding();
                }
                match vote_value.encode(buf) {
                    Ok(()) => {},
                    Err(e) => return Err(e),
                }
                proof {
                    lemma_append(old(buf)@, done, vote_value.encoding());
                    done = done + vote_value.encoding();
                }
                match voting_period.encode(buf) {
                    Ok(()) => {},
                    Err(e) => return Err(e),
                }
                proof {
                    lemma_append(old(buf)@, done, voting_period.encoding());
                    done = done + voting_period.encoding();
                }
            },
            TransactionData::SubmitBallot { voter, votes, voting_period } => {
                buf.push(4);
                let ghost mut done = seq![4u8];
                assert(buf@ =~= old(buf)@ + done);
                match voter.encode(buf) {
                    Ok(()) => {},
                    Err(e) => return Err(e),
                }
                proof {
                    lemma_append(old(buf)@, done, voter.encoding());
                    done = done + voter.encoding();
                }
                match votes.encode(buf) {
                    Ok(()) => {},
                    Err(e) => return Err(e),
                }
                proof {
                    lemma_append(old(buf)@, done, votes.encoding());
                    done = done + votes.encoding();
                }
                match voting_period.encode(buf) {
                    Ok(()) => {},
                    Err(e) => return Err(e),
                }
                proof {
                    lemma_append(old(buf)@, done, voting_period.encoding());
                    done = done + voting_period.encoding();
                }
            },
            TransactionData::TransferReputation { sender, dest, amount } => {
                buf.push(5);
                let ghost mut done = seq![5u8];
                assert(buf@ =~= old(buf)@ + done);
                match sender.encode(buf) {
                    Ok(()) => {},
                    Err(e) => return Err(e),
                }
                proof {
                    lemma_append(old(buf)@, done, sender.encoding());
                    done = done + sender.encoding();
                }
                match dest.encode(buf) {
                    Ok(()) => {},
                    Err(e) => return Err(e),
                }
                proof {
                    lemma_append(old(buf)@, done, dest.encoding());
                    done = done + dest.encoding();
                }
                match amount.encode(buf) {
                    Ok(()) => {},
                    Err(e) => return Err(e),
                }
                proof {
                    lemma_append(old(buf)@, done, amount.encoding());
                    done = done + amount.encoding();
                }
            },
            TransactionData::AmplifyBeta { market_id, amount, market_author } => {
                buf.push(6);
                let ghost mut done = seq![6u8];
                assert(buf@ =~= old(buf)@ + done);
                match market_id.encode(buf) {
                    Ok(()) => {},
                    Err(e) => return Err(e),
                }
                proof {
                    lemma_append(old(buf)@, done, market_id.encoding());
                    done = done + market_id.encoding();
                }
                match amount.encode(buf) {
                    Ok(()) => {},
                    Err(e) => return Err(e),
                }
                proof {
                    lemma_append(old(buf)@, done, amount.encoding());
                    done = done + amount.encoding();
                }
                match market_author.encode(buf) {
                    Ok(()) => {},
                    Err(e) => return Err(e),
                }
                proof {
                    lemma_append(old(buf)@, done, market_author.encoding());
                    done = done + market_author.encoding();
                }
            },
        }
        Ok(())
    }
}

impl TransactionData {
    pub fn is_claim_decision(&self) -> (r: bool)
        ensures
            r == (*self is ClaimDecision),
    {
        matches!(self, TransactionData::ClaimDecision(_))
    }

    pub fn is_create_market(&self) -> (r: bool)
        ensures
            r == (*self is CreateMarket),
    {
        matches!(self, TransactionData::CreateMarket { .. })
    }

    pub fn is_trade(&self) -> (r: bool)
        ensures
            r == (*self is Trade),
    {
        matches!(self, TransactionData::Trade { .. })
    }

    pub fn is_submit_vote(&self) -> (r: bool)
        ensures
            r == (*self is SubmitVote),
    {
        matches!(self, TransactionData::SubmitVote { .. })
    }

    pub fn is_submit_ballot(&self) -> (r: bool)
        ensures
            r == (*self is SubmitBallot),
    {
        matches!(self, TransactionData::SubmitBallot { .. })
    }

    pub fn is_transfer_reputation(&self) -> (r: bool)
        ensures
            r == (*self is TransferReputation),
    {
        matches!(self, TransactionData::TransferReputation { .. })
    }

    pub fn is_amplify_beta(&self) -> (r: bool)
        ensures
            r == (*self is AmplifyBeta),
    {
        matches!(self, TransactionData::AmplifyBeta { .. })
    }
}

/// The parts of a transaction that creates a market.
#[derive(Debug)]
pub struct MarketCreationView<'a> {
    pub title: &'a String,
    pub description: &'a String,
    pub dimension_specs: &'a Box<[DimensionSpec]>,
    pub trading_fee: Option<Real>,
    pub tx_pow_hash_selector: Option<u8>,
    pub tx_pow_ordering: Option<u8>,
    pub tx_pow_difficulty: Option<u8>,
    pub new_claims: &'a Box<[ClaimDecisionPayload]>,
}

/// A purchase of shares, or a sale if their number is negative.
#[derive(Clone, Copy, Debug, PartialEq)]
pub struct Trade {
    pub market_id: MarketId,
    pub outcome_index: u32,
    pub shares: i64,
    pub trader: Address,
    pub limit_sats: u64,
    pub tx_pow_nonce: Option<u64>,
    pub prev_block_hash: BlockHash,
}

/// The distance of a number from zero.
pub open spec fn magnitude(x: i64) -> u64 {
    if x >= 0 {
        x as u64
    } else {
        (-x) as u64
    }
}

pub fn unsigned_abs(x: i64) -> (r: u64)
    ensures
        r == magnitude(x),
{
    if x >= 0 {
        x as u64
    } else {
        (-(x + 1)) as u64 + 1
    }
}

impl Trade {
    pub open spec fn buys(self) -> bool {
        self.shares > 0
    }

    /// Whether the trade buys shares.
    pub fn is_buy(&self) -> (r: bool)
        ensures
            r == self.buys(),
    {
        self.shares > 0
    }

    /// Whether the trade sells shares.
    pub fn is_sell(&self) -> (r: bool)
        ensures
            r == (self.shares < 0),
    {
        self.shares < 0
    }

    /// How many shares are traded.
    pub fn shares_abs(&self) -> (r: u64)
        ensures
            r == magnitude(self.shares),
    {
        unsigned_abs(self.shares)
    }
}

/// A vote on a decision.
#[derive(Clone, Copy, Debug, PartialEq)]
pub struct SubmitVote {
    pub voter: Address,
    pub decision_id_bytes: [u8; 3],
    pub vote_value: Real,
    pub voting_period: u32,
}

/// Votes on several decisions.
#[derive(Debug, PartialEq)]
pub struct SubmitBallot {
    pub voter: Address,
    pub votes: Box<[BallotItem]>,
    pub voting_period: u32,
}

#[derive(Clone, Copy, Debug, PartialEq)]
pub struct TransferReputation {
    pub sender: Address,
    pub dest: Address,
    pub amount: Real,
}

#[derive(Clone, Copy, Debug, PartialEq)]
pub struct AmplifyBeta {
    pub market_id: MarketId,
    pub amount: u64,
    pub market_author: Address,
}

impl Encode for BitcoinOutputContent {
    open spec fn encodable(&self) -> bool {
        true
    }

    open spec fn encoding(&self) -> Seq<u8> {
        self.0.encoding()
    }

    fn encode(&self, buf: &mut Vec<u8>) -> (r: Result<(), EncodeError>) {
        self.0.encode(buf)
    }
}

impl Encode for WithdrawalOutputContent {
    open spec fn encodable(&self) -> bool {
        self.value.encodable() && self.main_fee.encodable() && self.main_address.encodable()
    }

    open spec fn encoding(&self) -> Seq<u8> {
        self.value.encoding() + self.main_fee.encoding() + self.main_address.encoding()
    }

    fn encode(&self, buf: &mut Vec<u8>) -> (r: Result<(), EncodeError>) {
        match self.value.encode(buf) {
            Ok(()) => {},
            Err(e) => return Err(e),
        }
        match self.main_fee.encode(buf) {
            Ok(()) => {},
            Err(e) => return Err(e),
        }
        match self.main_address.encode(buf) {
            Ok(()) => {},
            Err(e) => return Err(e),
        }
        assert(buf@ =~= old(buf)@ + self.encoding());
        Ok(())
    }
}

impl Encode for OutputContent {
    open spec fn encodable(&self) -> bool {
        match *self {
            OutputContent::Bitcoin(value) => value.encodable(),
            OutputContent::Withdrawal(withdrawal) => withdrawal.encodable(),
            OutputContent::MarketFunds { market_id, amount, is_fee } => true,
        }
    }

    open spec fn encoding(&self) -> Seq<u8> {
        match *self {
            OutputContent::Bitcoin(value) => seq![0u8] + value.encoding(),
            OutputContent::Withdrawal(withdrawal) => seq![1u8] + withdrawal.encoding(),
            OutputContent::MarketFunds { market_id, amount, is_fee } => seq![2u8]
                + market_id.encoding() + amount.encoding() + is_fee.encoding(),
        }
    }

    fn encode(&self, buf: &mut Vec<u8>) -> (r: Result<(), EncodeError>) {
        match self {
            OutputContent::Bitcoin(value) => {
                buf.push(0);
                let _ = value.encode(buf);
            },
            OutputContent::Withdrawal(withdrawal) => {
                buf.push(1);
                match withdrawal.encode(buf) {
                    Ok(()) => {},
                    Err(e) => return Err(e),
                }
            },
            OutputContent::MarketFunds { market_id, amount, is_fee } => {
                buf.push(2);
                let _ = market_id.encode(buf);
                let _ = amount.encode(buf);
                let _ = is_fee.encode(buf);
            },
        }
        assert(buf@ =~= old(buf)@ + self.encoding());
        Ok(())
    }
}

impl Encode for TxOutput {
    open spec fn encodable(&self) -> bool {
        self.address.encodable() && self.content.encodable() && self.memo.encodable()
    }

    open spec fn encoding(&self) -> Seq<u8> {
        self.address.encoding() + self.content.encoding() + self.memo.encoding()
    }

    fn encode(&self, buf: &mut Vec<u8>) -> (r: Result<(), EncodeError>) {
        match self.address.encode(buf) {
            Ok(()) => {},
            Err(e) => return Err(e),
        }
        match self.content.encode(buf) {
            Ok(()) => {},
            Err(e) => return Err(e),
        }
        match self.memo.encode(buf) {
            Ok(()) => {},
            Err(e) => return Err(e),
        }
        assert(buf@ =~= old(buf)@ + self.encoding());
        Ok(())
    }
}

/// A transaction: what it spends, what it creates, a memo, and what else it
/// does.
#[derive(Debug, PartialEq)]
pub struct Transaction {
    pub inputs: TxInputs,
    pub outputs: TxOutputs,
    pub memo: Box<[u8]>,
    pub data: Option<TransactionData>,
}

impl Duplicate for Transaction {
    fn duplicate(&self) -> (r: Self) {
        Transaction {
            inputs: boxed_copy(&self.inputs),
            outputs: boxed_duplicate(&self.outputs),
            memo: boxed_copy(&self.memo),
            data: self.data.duplicate(),
        }
    }
}

impl Clone for Transaction {
    fn clone(&self) -> (r: Self)
        ensures
            r == *self,
    {
        self.duplicate()
    }
}

impl Encode for Transaction {
    open spec fn encodable(&self) -> bool {
        self.inputs.encodable()
            && self.outputs.encodable()
            && self.memo.encodable()
            && self.data.encodable()
    }

    open spec fn encoding(&self) -> Seq<u8> {
        self.inputs.encoding()
            + self.outputs.encoding()
            + self.memo.encoding()
            + self.data.encoding()
    }

    fn encode(&self, buf: &mut Vec<u8>) -> (r: Result<(), EncodeError>) {
        match self.inputs.encode(buf) {
            Ok(()) => {},
            Err(e) => return Err(e),
        }
        match self.outputs.encode(buf) {
            Ok(()) => {},
            Err(e) => return Err(e),
        }
        match self.memo.encode(buf) {
            Ok(()) => {},
            Err(e) => return Err(e),
        }
        match self.data.encode(buf) {
            Ok(()) => {},
            Err(e) => return Err(e),
        }
        assert(buf@ =~= old(buf)@ + self.encoding());
        Ok(())
    }
}

impl Default for Transaction {
    fn default() -> (r: Self)
        ensures
            r.inputs@.len() == 0,
            r.outputs@.len() == 0,
            r.memo@.len() == 0,
            r.data is None,
    {
        Transaction {
            inputs: boxed(Vec::new()),
            outputs: boxed(Vec::new()),
            memo: boxed(Vec::new()),
            data: None,
        }
    }
}

impl Transaction {
    pub fn new(inputs: TxInputs, outputs: TxOutputs) -> (r: Self)
        ensures
            r.inputs == inputs,
            r.outputs == outputs,
            r.memo@.len() == 0,
            r.data is None,
    {
        Transaction { inputs, outputs, memo: boxed(Vec::new()), data: None }
    }

    /// The asset outputs, each with its place.
    pub fn indexed_asset_outputs(&self) -> (r: Vec<(usize, AssetOutput)>)
        ensures
            r@.len() == self.outputs@.len(),
            forall|i: int|
                0 <= i < r@.len() ==> {
                    let output = self.outputs@[i];
                    &&& (#[trigger] r@[i]).0 == i
                    &&& r@[i].1 == Output {
                        address: output.address,
                        content: output.content.asset_part(),
                        memo: output.memo,
                    }
                },
    {
        let mut r: Vec<(usize, AssetOutput)> = Vec::new();
        let mut i: usize = 0;
        while i < self.outputs.len()
            invariant
                i <= self.outputs@.len(),
                r@.len() == i,
                forall|j: int|
                    0 <= j < i ==> {
                        let output = self.outputs@[j];
                        &&& (#[trigger] r@[j]).0 == j
                        &&& r@[j].1 == Output {
                            address: output.address,
                            content: output.content.asset_part(),
                            memo: output.memo,
                        }
                    },
            decreases self.outputs@.len() - i,
        {
            let output = self.outputs[i].duplicate();
            match output.content.as_asset() {
                Some(content) => {
                    r.push((i, Output { address: output.address, content, memo: output.memo }));
                },
                None => {},
            }
            i += 1;
        }
        r
    }

    /// Whether the transaction only moves bitcoin.
    pub fn is_regular(&self) -> (r: bool)
        ensures
            r == (self.data is None),
    {
        self.data.is_none()
    }

    /// The id: the hash of the encoding.
    pub open spec fn id_bytes(self) -> Seq<u8> {
        blake3_hash(self.encoding())
    }

    pub open spec fn id(self) -> Txid {
        choose|t: Txid| t.0@ == self.id_bytes()
    }

    pub fn txid(&self) -> (r: Txid)
        requires
            self.encodable(),
        ensures
            r == self.id(),
            r.0@ == self.id_bytes(),
            forall|t: Txid| t.0@ == self.id_bytes() ==> #[trigger] t.0@ == r.0@ && t == r,
    {
        let mut buf: Vec<u8> = Vec::new();
        let _ = self.encode(&mut buf);
        assert(buf@ =~= self.encoding());
        let r = Txid(hash(buf.as_slice()));
        proof {
            assert forall|t: Txid| t.0@ == self.id_bytes() implies #[trigger] t.0@ == r.0@ && t
                == r by {
                lemma_array_equal(t.0, r.0);
            }
            assert(self.id().0@ == r.0@);
        }
        r
    }
}

/// The sum of the bitcoin values.
pub open spec fn total_value<T: GetBitcoinValue>(s: Seq<T>) -> nat
    decreases s.len(),
{
    if s.len() == 0 {
        0
    } else {
        total_value(s.drop_last()) + s.last().bitcoin_value() as nat
    }
}

/// The sum of the first values is at most the sum of all.
pub proof fn lemma_total_value_prefix<T: GetBitcoinValue>(s: Seq<T>, n: int)
    requires
        0 <= n <= s.len(),
    ensures
        total_value(s.subrange(0, n)) <= total_value(s),
    decreases s.len() - n,
{
    if n == s.len() {
        assert(s.subrange(0, n) =~= s);
    } else {
        lemma_total_value_prefix(s, n + 1);
        assert(s.subrange(0, n + 1).drop_last() =~= s.subrange(0, n));
    }
}

/// The sum of the bitcoin values, if it fits.
pub fn checked_total<T: GetBitcoinValue>(s: &[T]) -> (r: Option<u64>)
    ensures
        match r {
            Some(v) => v == total_value(s@),
            None => total_value(s@) > u64::MAX,
        },
{
    let mut total: u64 = 0;
    let mut i: usize = 0;
    assert(total_value(s@.subrange(0, 0)) == 0);
    while i < s.len()
        invariant
            i <= s@.len(),
            total == total_value(s@.subrange(0, i as int)),
        decreases s@.len() - i,
    {
        proof {
            assert(s@.subrange(0, i + 1).drop_last() =~= s@.subrange(0, i as int));
            lemma_total_value_prefix(s@, i + 1);
        }
        match total.checked_add(s[i].get_bitcoin_value()) {
            Some(sum) => {
                total = sum;
            },
            None => return None,
        }
        i += 1;
    }
    assert(s@.subrange(0, i as int) =~= s@);
    Some(total)
}

/// The sum of the plain bitcoin that the outputs hold.
pub open spec fn plain_bitcoin(s: Seq<FilledOutput>) -> nat
    decreases s.len(),
{
    if s.len() == 0 {
        0
    } else {
        plain_bitcoin(s.drop_last()) + match s.last().content {
            FilledOutputContent::Bitcoin(value) => value.0 as nat,
            _ => 0,
        }
    }
}

/// The bitcoin that outputs take out of the plain bitcoin spent: that of plain
/// outputs and of market funds.
pub open spec fn bitcoin_taken(s: Seq<TxOutput>) -> nat
    decreases s.len(),
{
    if s.len() == 0 {
        0
    } else {
        bitcoin_taken(s.drop_last()) + match s.last().content.bitcoin_part() {
            Some(value) => value.0 as nat,
            None => 0,
        }
    }
}

pub proof fn lemma_plain_bitcoin_prefix(s: Seq<FilledOutput>, n: int)
    requires
        0 <= n <= s.len(),
    ensures
        plain_bitcoin(s.subrange(0, n)) <= plain_bitcoin(s),
    decreases s.len() - n,
{
    if n == s.len() {
        assert(s.subrange(0, n) =~= s);
    } else {
        lemma_plain_bitcoin_prefix(s, n + 1);
        assert(s.subrange(0, n + 1).drop_last() =~= s.subrange(0, n));
    }
}

pub proof fn lemma_bitcoin_taken_prefix(s: Seq<TxOutput>, n: int)
    requires
        0 <= n <= s.len(),
    ensures
        bitcoin_taken(s.subrange(0, n)) <= bitcoin_taken(s),
    decreases s.len() - n,
{
    if n == s.len() {
        assert(s.subrange(0, n) =~= s);
    } else {
        lemma_bitcoin_taken_prefix(s, n + 1);
        assert(s.subrange(0, n + 1).drop_last() =~= s.subrange(0, n));
    }
}

/// A transaction with the outputs that it spends.
#[derive(Debug, PartialEq)]
pub struct FilledTransaction {
    pub transaction: Transaction,
    pub spent_utxos: Box<[FilledOutput]>,
    pub actor_address: Option<Address>,
}

impl Duplicate for FilledTransaction {
    fn duplicate(&self) -> (r: Self) {
        FilledTransaction {
            transaction: self.transaction.duplicate(),
            spent_utxos: boxed_duplicate(&self.spent_utxos),
            actor_address: self.actor_address,
        }
    }
}

impl Clone for FilledTransaction {
    fn clone(&self) -> (r: Self)
        ensures
            r == *self,
    {
        self.duplicate()
    }
}

impl FilledTransaction {
    pub fn data(&self) -> (r: &Option<TxData>)
        ensures
            *r == self.transaction.data,
    {
        &self.transaction.data
    }

    pub fn inputs(&self) -> (r: &TxInputs)
        ensures
            *r == self.transaction.inputs,
    {
        &self.transaction.inputs
    }

    pub fn outputs(&self) -> (r: &TxOutputs)
        ensures
            *r == self.transaction.outputs,
    {
        &self.transaction.outputs
    }

    pub fn is_claim_decision(&self) -> (r: bool)
        ensures
            r == (self.transaction.data is Some && self.transaction.data->0 is ClaimDecision),
    {
        match &self.transaction.data {
            Some(data) => data.is_claim_decision(),
            None => false,
        }
    }

    pub fn is_create_market(&self) -> (r: bool)
        ensures
            r == (self.transaction.data is Some && self.transaction.data->0 is CreateMarket),
    {
        match &self.transaction.data {
            Some(data) => data.is_create_market(),
            None => false,
        }
    }

    pub fn is_trade(&self) -> (r: bool)
        ensures
            r == (self.transaction.data is Some && self.transaction.data->0 is Trade),
    {
        match &self.transaction.data {
            Some(data) => data.is_trade(),
            None => false,
        }
    }

    pub fn is_submit_vote(&self) -> (r: bool)
        ensures
            r == (self.transaction.data is Some && self.transaction.data->0 is SubmitVote),
    {
        match &self.transaction.data {
            Some(data) => data.is_submit_vote(),
            None => false,
        }
    }

    pub fn is_submit_ballot(&self) -> (r: bool)
        ensures
            r == (self.transaction.data is Some && self.transaction.data->0 is SubmitBallot),
    {
        match &self.transaction.data {
            Some(data) => data.is_submit_ballot(),
            None => false,
        }
    }

    pub fn is_transfer_reputation(&self) -> (r: bool)
        ensures
            r == (self.transaction.data is Some && self.transaction.data->0 is TransferReputation),
    {
        match &self.transaction.data {
            Some(data) => data.is_transfer_reputation(),
            None => false,
        }
    }

    pub fn is_amplify_beta(&self) -> (r: bool)
        ensures
            r == (self.transaction.data is Some && self.transaction.data->0 is AmplifyBeta),
    {
        match &self.transaction.data {
            Some(data) => data.is_amplify_beta(),
            None => false,
        }
    }

    pub fn claim_decision(&self) -> (r: Option<&ClaimDecisionPayload>)
        ensures
            match self.transaction.data {
                Some(TransactionData::ClaimDecision(payload)) => r == Some(&payload),
                _ => r is None,
            },
    {
        match &self.transaction.data {
            Some(TransactionData::ClaimDecision(payload)) => Some(payload),
            _ => None,
        }
    }

    /// The parts of a market creation.
    pub fn as_market_creation(&self) -> (r: Option<MarketCreationView<'_>>)
        ensures
            match self.transaction.data {
                Some(
                    TransactionData::CreateMarket {
                        title,
                        description,
                        dimension_specs,
                        new_claims,
                        trading_fee,
                        tx_pow_hash_selector,
                        tx_pow_ordering,
                        tx_pow_difficulty,
                    },
                ) => r == Some(
                    MarketCreationView {
                        title: &title,
                        description: &description,
                        dimension_specs: &dimension_specs,
                        trading_fee,
                        tx_pow_hash_selector,
                        tx_pow_ordering,
                        tx_pow_difficulty,
                        new_claims: &new_claims,
                    },
                ),
                _ => r is None,
            },
    {
        match &self.transaction.data {
            Some(
                TransactionData::CreateMarket {
                    title,
                    description,
                    dimension_specs,
                    new_claims,
                    trading_fee,
                    tx_pow_hash_selector,
                    tx_pow_ordering,
                    tx_pow_difficulty,
                },
            ) => Some(
                MarketCreationView {
                    title,
                    description,
                    dimension_specs,
                    trading_fee: *trading_fee,
                    tx_pow_hash_selector: *tx_pow_hash_selector,
                    tx_pow_ordering: *tx_pow_ordering,
                    tx_pow_difficulty: *tx_pow_difficulty,
                    new_claims,
                },
            ),
            _ => None,
        }
    }

    /// The trade of a transaction.
    pub open spec fn trade_of(self) -> Option<Trade> {
        match self.transaction.data {
            Some(
                TransactionData::Trade {
                    market_id,
                    outcome_index,
                    shares,
                    trader,
                    limit_sats,
                    tx_pow_nonce,
                    prev_block_hash,
                },
            ) => Some(
                Trade {
                    market_id,
                    outcome_index,
                    shares,
                    trader,
                    limit_sats,
                    tx_pow_nonce,
                    prev_block_hash,
                },
            ),
            _ => None,
        }
    }

    pub fn trade(&self) -> (r: Option<Trade>)
        ensures
            r == self.trade_of(),
    {
        match &self.transaction.data {
            Some(
                TransactionData::Trade {
                    market_id,
                    outcome_index,
                    shares,
                    trader,
                    limit_sats,
                    tx_pow_nonce,
                    prev_block_hash,
                },
            ) => Some(
                Trade {
                    market_id: *market_id,
                    outcome_index: *outcome_index,
                    shares: *shares,
                    trader: *trader,
                    limit_sats: *limit_sats,
                    tx_pow_nonce: *tx_pow_nonce,
                    prev_block_hash: *prev_block_hash,
                },
            ),
            _ => None,
        }
    }

    pub fn submit_vote(&self) -> (r: Option<SubmitVote>)
        ensures
            match self.transaction.data {
                Some(
                    TransactionData::SubmitVote {
                        voter,
                        decision_id_bytes,
                        vote_value,
                        voting_period,
                    },
                ) => r == Some(SubmitVote { voter, decision_id_bytes, vote_value, voting_period }),
                _ => r is None,
            },
    {
        match &self.transaction.data {
            Some(
                TransactionData::SubmitVote {
                    voter,
                    decision_id_bytes,
                    vote_value,
                    voting_period,
                },
            ) => Some(
                SubmitVote {
                    voter: *voter,
                    decision_id_bytes: *decision_id_bytes,
                    vote_value: *vote_value,
                    voting_period: *voting_period,
                },
            ),
            _ => None,
        }
    }

    pub fn submit_ballot(&self) -> (r: Option<SubmitBallot>)
        ensures
            match self.transaction.data {
                Some(TransactionData::SubmitBallot { voter, votes, voting_period }) => r == Some(
                    SubmitBallot { voter, votes, voting_period },
                ),
                _ => r is None,
            },
    {
        match &self.transaction.data {
            Some(TransactionData::SubmitBallot { voter, votes, voting_period }) => Some(
                SubmitBallot {
                    voter: *voter,
                    votes: boxed_copy(votes),
                    voting_period: *voting_period,
                },
            ),
            _ => None,
        }
    }

    pub fn transfer_reputation(&self) -> (r: Option<TransferReputation>)
        ensures
            match self.transaction.data {
                Some(TransactionData::TransferReputation { sender, dest, amount }) => r == Some(
                    TransferReputation { sender, dest, amount },
                ),
                _ => r is None,
            },
    {
        match &self.transaction.data {
            Some(TransactionData::TransferReputation { sender, dest, amount }) => Some(
                TransferReputation { sender: *sender, dest: *dest, amount: *amount },
            ),
            _ => None,
        }
    }

    pub fn amplify_beta(&self) -> (r: Option<AmplifyBeta>)
        ensures
            match self.transaction.data {
                Some(TransactionData::AmplifyBeta { market_id, amount, market_author }) => r
                    == Some(AmplifyBeta { market_id, amount, market_author }),
                _ => r is None,
            },
    {
        match &self.transaction.data {
            Some(TransactionData::AmplifyBeta { market_id, amount, market_author }) => Some(
                AmplifyBeta {
                    market_id: *market_id,
                    amount: *amount,
                    market_author: *market_author,
                },
            ),
            _ => None,
        }
    }

    pub fn txid(&self) -> (r: Txid)
        requires
            self.transaction.encodable(),
        ensures
            r == self.transaction.id(),
            r.0@ == self.transaction.id_bytes(),
            forall|t: Txid|
                t.0@ == self.transaction.id_bytes() ==> #[trigger] t.0@ == r.0@ && t == r,
    {
        self.transaction.txid()
    }

    /// The spent outpoints, each with the output that it names.
    pub fn spent_inputs(&self) -> (r: Vec<(&OutPoint, &FilledOutput)>)
        ensures
            r@.len() == vstd::math::min(
                self.transaction.inputs@.len() as int,
                self.spent_utxos@.len() as int,
            ),
            forall|i: int|
                0 <= i < r@.len() ==> *(#[trigger] r@[i]).0 == self.transaction.inputs@[i]
                    && *r@[i].1 == self.spent_utxos@[i],
    {
        let mut r: Vec<(&OutPoint, &FilledOutput)> = Vec::new();
        let mut i: usize = 0;
        while i < self.transaction.inputs.len() && i < self.spent_utxos.len()
            invariant
                i <= self.transaction.inputs@.len(),
                i <= self.spent_utxos@.len(),
                r@.len() == i,
                forall|j: int|
                    0 <= j < i ==> *(#[trigger] r@[j]).0 == self.transaction.inputs@[j]
                        && *r@[j].1 == self.spent_utxos@[j],
            decreases self.spent_utxos@.len() - i,
        {
            r.push((&self.transaction.inputs[i], &self.spent_utxos[i]));
            i += 1;
        }
        r
    }

    /// The bitcoin that is spent.
    pub fn spent_bitcoin_value(&self) -> (r: Result<u64, AmountOverflowError>)
        ensures
            match r {
                Ok(v) => v == total_value(self.spent_utxos@),
                Err(_) => total_value(self.spent_utxos@) > u64::MAX,
            },
    {
        match checked_total(&self.spent_utxos) {
            Some(v) => Ok(v),
            None => Err(AmountOverflowError),
        }
    }

    /// The bitcoin that the outputs hold.
    pub fn bitcoin_value_out(&self) -> (r: Result<u64, AmountOverflowError>)
        ensures
            match r {
                Ok(v) => v == total_value(self.transaction.outputs@),
                Err(_) => total_value(self.transaction.outputs@) > u64::MAX,
            },
    {
        match checked_total(&self.transaction.outputs) {
            Some(v) => Ok(v),
            None => Err(AmountOverflowError),
        }
    }

    /// What is spent and not in the outputs, if that is not negative.
    pub open spec fn fee(self) -> Result<Option<u64>, AmountOverflowError> {
        let spent = total_value(self.spent_utxos@);
        let out = total_value(self.transaction.outputs@);
        if spent > u64::MAX || out > u64::MAX {
            Err(AmountOverflowError)
        } else if spent < out {
            Ok(None)
        } else {
            Ok(Some((spent - out) as u64))
        }
    }

    pub fn bitcoin_fee(&self) -> (r: Result<Option<u64>, AmountOverflowError>)
        ensures
            r == self.fee(),
    {
        let spent: u64 = match self.spent_bitcoin_value() {
            Ok(v) => v,
            Err(e) => return Err(e),
        };
        let out: u64 = match self.bitcoin_value_out() {
            Ok(v) => v,
            Err(e) => return Err(e),
        };
        if spent < out {
            Ok(None)
        } else {
            Ok(Some(spent - out))
        }
    }

    /// How many outputs that are spent there are.
    pub open spec fn spent_len(self) -> int {
        vstd::math::min(self.transaction.inputs@.len() as int, self.spent_utxos@.len() as int)
    }

    /// The spent outputs that an input names.
    pub open spec fn named_spent(self) -> Seq<FilledOutput> {
        self.spent_utxos@.subrange(0, self.spent_len())
    }

    /// The spent outpoints whose outputs hold plain bitcoin, in their order.
    pub fn spent_assets(&self) -> (r: Vec<(&OutPoint, &FilledOutput)>)
        ensures
            r@.map_values(|p: (&OutPoint, &FilledOutput)| (*p.0, *p.1))
                == Seq::new(
                self.spent_len() as nat,
                |i: int| (self.transaction.inputs@[i], self.spent_utxos@[i]),
            ).filter(|p: (OutPoint, FilledOutput)| p.1.content is Bitcoin),
    {
        let mut r: Vec<(&OutPoint, &FilledOutput)> = Vec::new();
        let mut i: usize = 0;
        let ghost all = Seq::new(
            self.spent_len() as nat,
            |i: int| (self.transaction.inputs@[i], self.spent_utxos@[i]),
        );
        let ghost holds = |p: (OutPoint, FilledOutput)| p.1.content is Bitcoin;
        let ghost plain = |p: (&OutPoint, &FilledOutput)| (*p.0, *p.1);
        proof {
            reveal(Seq::filter);
            assert(r@.map_values(plain) =~= all.subrange(0, 0).filter(holds));
        }
        while i < self.transaction.inputs.len() && i < self.spent_utxos.len()
            invariant
                i <= self.transaction.inputs@.len(),
                i <= self.spent_utxos@.len(),
                all == Seq::new(
                    self.spent_len() as nat,
                    |i: int| (self.transaction.inputs@[i], self.spent_utxos@[i]),
                ),
                holds == (|p: (OutPoint, FilledOutput)| p.1.content is Bitcoin),
                plain == (|p: (&OutPoint, &FilledOutput)| (*p.0, *p.1)),
                r@.map_values(plain) == all.subrange(0, i as int).filter(holds),
            decreases self.spent_utxos@.len() - i,
        {
            proof {
                reveal(Seq::filter);
                assert(all.subrange(0, i + 1).drop_last() =~= all.subrange(0, i as int));
            }
            let ghost before = r@;
            if self.spent_utxos[i].is_bitcoin() {
                r.push((&self.transaction.inputs[i], &self.spent_utxos[i]));
                assert(r@.map_values(plain) =~= before.map_values(plain).push(all[i as int]));
            }
            i += 1;
        }
        assert(all.subrange(0, i as int) =~= all);
        r
    }

    /// The sum of the plain bitcoin spent fits.
    pub open spec fn spends_fit(self) -> bool {
        plain_bitcoin(self.named_spent()) <= u64::MAX
    }

    /// The plain bitcoin spent, and whether any output with it is.
    fn plain_bitcoin_spent(&self) -> (r: (u64, bool))
        requires
            self.spends_fit(),
        ensures
            r.0 == plain_bitcoin(self.named_spent()),
            r.1 == exists|i: int|
                0 <= i < self.spent_len() && (#[trigger] self.spent_utxos@[i]).content is Bitcoin,
    {
        let mut total: u64 = 0;
        let mut any = false;
        let mut i: usize = 0;
        let ghost named = self.named_spent();
        assert(plain_bitcoin(named.subrange(0, 0)) == 0);
        while i < self.transaction.inputs.len() && i < self.spent_utxos.len()
            invariant
                i <= self.transaction.inputs@.len(),
                i <= self.spent_utxos@.len(),
                named == self.named_spent(),
                plain_bitcoin(named) <= u64::MAX,
                total == plain_bitcoin(named.subrange(0, i as int)),
                any == exists|j: int|
                    0 <= j < i && (#[trigger] self.spent_utxos@[j]).content is Bitcoin,
            decreases self.spent_utxos@.len() - i,
        {
            proof {
                assert(named.subrange(0, i + 1).drop_last() =~= named.subrange(0, i as int));
                lemma_plain_bitcoin_prefix(named, i + 1);
            }
            match &self.spent_utxos[i].content {
                FilledOutputContent::Bitcoin(value) => {
                    total = total + value.0;
                    any = true;
                    assert(self.spent_utxos@[i as int].content is Bitcoin);
                },
                _ => {},
            }
            i += 1;
        }
        assert(named.subrange(0, i as int) =~= named);
        (total, any)
    }

    /// The assets spent, each with its total, in the order in which they first
    /// occur. There is one asset, so it is at most one pair.
    pub fn unique_spent_assets(&self) -> (r: Vec<(AssetId, u64)>)
        requires
            self.spends_fit(),
        ensures
            r@ == if exists|i: int|
                0 <= i < self.spent_len() && (#[trigger] self.spent_utxos@[i]).content is Bitcoin {
                seq![(AssetId::Bitcoin, plain_bitcoin(self.named_spent()) as u64)]
            } else {
                Seq::empty()
            },
    {
        let (total, any) = self.plain_bitcoin_spent();
        let mut r: Vec<(AssetId, u64)> = Vec::new();
        if any {
            r.push((AssetId::Bitcoin, total));
            assert(r@ =~= seq![(AssetId::Bitcoin, total)]);
        }
        r
    }

    /// The most bitcoin that the outputs can hold.
    pub fn output_bitcoin_max_value(&self) -> (r: u64)
        requires
            self.spends_fit(),
        ensures
            r == plain_bitcoin(self.named_spent()),
    {
        self.plain_bitcoin_spent().0
    }

    /// The outputs once they are known to be funded: the plain bitcoin spent
    /// covers what they take.
    pub open spec fn filled(self) -> Option<Seq<FilledOutput>> {
        if bitcoin_taken(self.transaction.outputs@) <= plain_bitcoin(self.named_spent()) {
            Some(self.transaction.outputs@.map_values(|o: TxOutput| o.filled()))
        } else {
            None
        }
    }

    pub fn filled_outputs(&self) -> (r: Option<Vec<FilledOutput>>)
        requires
            self.spends_fit(),
        ensures
            match r {
                Some(v) => self.filled() == Some(v@),
                None => self.filled() is None,
            },
    {
        let mut left: u64 = self.output_bitcoin_max_value();
        let ghost most = left as nat;
        let mut r: Vec<FilledOutput> = Vec::new();
        let mut i: usize = 0;
        let ghost outs = self.transaction.outputs@;
        assert(bitcoin_taken(outs.subrange(0, 0)) == 0);
        while i < self.transaction.outputs.len()
            invariant
                i <= outs.len(),
                outs == self.transaction.outputs@,
                most == plain_bitcoin(self.named_spent()),
                left + bitcoin_taken(outs.subrange(0, i as int)) == most,
                r@.len() == i,
                forall|j: int| 0 <= j < i ==> #[trigger] r@[j] == outs[j].filled(),
            decreases outs.len() - i,
        {
            proof {
                assert(outs.subrange(0, i + 1).drop_last() =~= outs.subrange(0, i as int));
                lemma_bitcoin_taken_prefix(outs, i + 1);
            }
            let output = &self.transaction.outputs[i];
            match &output.content {
                OutputContent::Bitcoin(value) => {
                    match left.checked_sub(value.0) {
                        Some(rest) => {
                            left = rest;
                        },
                        None => return None,
                    }
                },
                OutputContent::MarketFunds { amount, .. } => {
                    match left.checked_sub(amount.0) {
                        Some(rest) => {
                            left = rest;
                        },
                        None => return None,
                    }
                },
                OutputContent::Withdrawal(_) => {},
            }
            r.push(output.to_filled());
            i += 1;
        }
        assert(outs.subrange(0, i as int) =~= outs);
        assert(r@ =~= outs.map_values(|o: TxOutput| o.filled()));
        Some(r)
    }
}

/// A transaction with the signatures of those whose outputs it spends.
#[derive(Debug, PartialEq)]
pub struct Authorized<T> {
    pub transaction: T,
    pub authorizations: Box<[Authorization]>,
    pub actor_proof: Option<Authorization>,
}

impl<T: Duplicate> Duplicate for Authorized<T> {
    fn duplicate(&self) -> (r: Self) {
        Authorized {
            transaction: self.transaction.duplicate(),
            authorizations: boxed_copy(&self.authorizations),
            actor_proof: self.actor_proof,
        }
    }
}

impl<T: Duplicate> Clone for Authorized<T> {
    fn clone(&self) -> (r: Self)
        ensures
            r == *self,
    {
        self.duplicate()
    }
}

pub type AuthorizedTransaction = Authorized<Transaction>;

/// An address has a part in a transaction: it signs, it acts, or it receives.
pub open spec fn is_relevant(tx: AuthorizedTransaction, address: Address) -> bool {
    ||| exists|i: int|
        0 <= i < tx.authorizations@.len() && address.0@ == address_bytes(
            (#[trigger] tx.authorizations@[i]).verifying_key,
        )
    ||| tx.actor_proof is Some && address.0@ == address_bytes(tx.actor_proof->0.verifying_key)
    ||| exists|i: int|
        0 <= i < tx.transaction.outputs@.len() && address == (
        #[trigger] tx.transaction.outputs@[i]).address
}

/// Adds an address to a list, unless it is there.
pub fn add_address(list: &mut Vec<Address>, address: Address)
    requires
        old(list)@.no_duplicates(),
    ensures
        final(list)@.no_duplicates(),
        forall|a: Address| #[trigger] final(list)@.contains(a) <==> old(list)@.contains(a) || a
            == address,
{
    let mut i: usize = 0;
    while i < list.len()
        invariant
            i <= list@.len(),
            list@ == old(list)@,
            old(list)@.no_duplicates(),
            forall|j: int| 0 <= j < i ==> list@[j] != address,
        decreases list@.len() - i,
    {
        if list[i] == address {
            assert(list@.contains(address));
            return;
        }
        i += 1;
    }
    list.push(address);
    proof {
        assert forall|a: Address| #[trigger] list@.contains(a) <==> old(list)@.contains(a) || a
            == address by {
            if old(list)@.contains(a) {
                let j = choose|j: int| 0 <= j < old(list)@.len() && old(list)@[j] == a;
                assert(list@[j] == a);
            }
            if a == address {
                assert(list@[list@.len() - 1] == a);
            }
        }
    }
}

impl Authorized<Transaction> {
    /// The addresses that have a part in the transaction, each once.
    pub fn relevant_addresses(&self) -> (r: Vec<Address>)
        ensures
            r@.no_duplicates(),
            forall|a: Address| #[trigger] r@.contains(a) <==> is_relevant(*self, a),
    {
        let mut r: Vec<Address> = Vec::new();
        let mut i: usize = 0;
        while i < self.authorizations.len()
            invariant
                i <= self.authorizations@.len(),
                r@.no_duplicates(),
                forall|a: Address| #[trigger]
                    r@.contains(a) <==> exists|j: int|
                        0 <= j < i && a.0@ == address_bytes(
                            (#[trigger] self.authorizations@[j]).verifying_key,
                        ),
            decreases self.authorizations@.len() - i,
        {
            let ghost before = r@;
            let address = self.authorizations[i].get_address();
            add_address(&mut r, address);
            proof {
                assert forall|a: Address| #[trigger] r@.contains(a) <==> exists|j: int|
                    0 <= j < i + 1 && a.0@ == address_bytes(
                        (#[trigger] self.authorizations@[j]).verifying_key,
                    ) by {
                    if a.0@ == address_bytes(self.authorizations@[i as int].verifying_key) {
                        lemma_array_equal(a.0, address.0);
                    }
                    if before.contains(a) {
                        let j = choose|j: int|
                            0 <= j < i && a.0@ == address_bytes(
                                (#[trigger] self.authorizations@[j]).verifying_key,
                            );
                        assert(0 <= j < i + 1);
                    }
                }
            }
            i += 1;
        }
        let ghost signers = r@;
        match &self.actor_proof {
            Some(actor) => {
                let address = actor.get_address();
                add_address(&mut r, address);
                proof {
                    assert forall|a: Address| a.0@ == address_bytes(actor.verifying_key) implies a
                        == address by {
                        lemma_array_equal(a.0, address.0);
                    }
                }
            },
            None => {},
        }
        let ghost actors = r@;
        let mut i: usize = 0;
        while i < self.transaction.outputs.len()
            invariant
                i <= self.transaction.outputs@.len(),
                r@.no_duplicates(),
                forall|a: Address| #[trigger]
                    r@.contains(a) <==> actors.contains(a) || exists|j: int|
                        0 <= j < i && a == (#[trigger] self.transaction.outputs@[j]).address,
            decreases self.transaction.outputs@.len() - i,
        {
            let ghost before = r@;
            add_address(&mut r, self.transaction.outputs[i].address);
            proof {
                assert forall|a: Address| #[trigger] r@.contains(a) <==> actors.contains(a)
                    || exists|j: int|
                    0 <= j < i + 1 && a == (#[trigger] self.transaction.outputs@[j]).address by {
                    if before.contains(a) && !actors.contains(a) {
                        let j = choose|j: int|
                            0 <= j < i && a == (#[trigger] self.transaction.outputs@[j]).address;
                        assert(0 <= j < i + 1);
                    }
                    if a == self.transaction.outputs@[i as int].address {
                        assert(0 <= i < i + 1);
                    }
                }
            }
            i += 1;
        }
        r
    }
}

impl From<Authorized<FilledTransaction>> for Authorized<Transaction> {
    fn from(tx: Authorized<FilledTransaction>) -> (r: Self) {
        Authorized {
            transaction: tx.transaction.transaction,
            authorizations: tx.authorizations,
            actor_proof: tx.actor_proof,
        }
    }
}

impl vstd::std_specs::convert::FromSpecImpl<Authorized<FilledTransaction>> for Authorized<Transaction> {
    open spec fn obeys_from_spec() -> bool {
        true
    }

    open spec fn from_spec(tx: Authorized<FilledTransaction>) -> Self {
        Authorized {
            transaction: tx.transaction.transaction,
            authorizations: tx.authorizations,
            actor_proof: tx.actor_proof,
        }
    }
}

/// A transaction whose fee is known creates no bitcoin: what it spends is what
/// its outputs hold and the fee.
pub proof fn fee_conserves_bitcoin(tx: FilledTransaction, fee: u64)
    requires
        tx.fee() == Ok::<Option<u64>, AmountOverflowError>(Some(fee)),
    ensures
        total_value(tx.spent_utxos@) == total_value(tx.transaction.outputs@) + fee,
{
}

/// Outputs that are filled hold, in plain bitcoin and market funds, no more
/// than the plain bitcoin spent.
pub proof fn filled_outputs_are_funded(tx: FilledTransaction)
    requires
        tx.filled() is Some,
    ensures
        bitcoin_taken(tx.transaction.outputs@) <= plain_bitcoin(tx.named_spent()),
        tx.filled()->0.len() == tx.transaction.outputs@.len(),
{
}

/// The encoding of a claim is the place of its variant and the encoding of its
/// payload.
pub proof fn claim_encoding_is_its_payload(payload: ClaimDecisionPayload)
    ensures
        TransactionData::ClaimDecision(payload).encoding() == seq![0u8] + payload.encoding(),
{
}

} // verus!
