//! Outputs of transactions and what they hold.

use vstd::prelude::*;

use crate::bytes::{boxed, boxed_copy, lemma_boxed_equal};
use crate::types::transaction::{InPoint, OutPoint};
use crate::types::{Address, AssetId, Duplicate};

verus! {

/// What has a value in bitcoin.
pub trait GetBitcoinValue {
    spec fn bitcoin_value(&self) -> u64;

    fn get_bitcoin_value(&self) -> (r: u64)
        ensures
            r == self.bitcoin_value(),
    ;
}

/// An amount of bitcoin, in sats.
#[derive(Clone, Copy, Debug, PartialEq, Eq, PartialOrd, Ord, Hash, Structural)]
pub struct BitcoinContent(pub u64);

/// A mainchain address, held by its script.
#[derive(Debug, PartialEq, Eq, PartialOrd, Ord, Hash)]
pub struct MainAddress {
    pub script_pubkey: Box<[u8]>,
}

impl Clone for MainAddress {
    fn clone(&self) -> (r: Self)
        ensures
            r == *self,
    {
        self.duplicate()
    }
}

impl Duplicate for MainAddress {
    fn duplicate(&self) -> (r: Self) {
        MainAddress { script_pubkey: boxed_copy(&self.script_pubkey) }
    }
}

/// A withdrawal to the mainchain.
#[derive(Debug, PartialEq, Eq)]
pub struct WithdrawalContent {
    /// What the mainchain address gets, in sats.
    pub value: u64,
    /// What the mainchain miner gets, in sats.
    pub main_fee: u64,
    pub main_address: MainAddress,
}

impl GetBitcoinValue for WithdrawalContent {
    /// Both the payout and the mainchain fee leave the treasury.
    open spec fn bitcoin_value(&self) -> u64 {
        if self.value + self.main_fee <= u64::MAX {
            (self.value + self.main_fee) as u64
        } else {
            u64::MAX
        }
    }

    fn get_bitcoin_value(&self) -> (r: u64) {
        match self.value.checked_add(self.main_fee) {
            Some(sum) => sum,
            None => u64::MAX,
        }
    }
}

impl Clone for WithdrawalContent {
    fn clone(&self) -> (r: Self)
        ensures
            r == *self,
    {
        self.duplicate()
    }
}

impl Duplicate for WithdrawalContent {
    fn duplicate(&self) -> (r: Self) {
        WithdrawalContent {
            value: self.value,
            main_fee: self.main_fee,
            main_address: self.main_address.duplicate(),
        }
    }
}

#[derive(Debug, PartialEq, Eq)]
pub enum AssetContent {
    Bitcoin(BitcoinContent),
    Withdrawal(WithdrawalContent),
}

impl From<BitcoinContent> for AssetContent {
    fn from(content: BitcoinContent) -> (r: Self) {
        AssetContent::Bitcoin(content)
    }
}

impl vstd::std_specs::convert::FromSpecImpl<BitcoinContent> for AssetContent {
    open spec fn obeys_from_spec() -> bool {
        true
    }

    open spec fn from_spec(content: BitcoinContent) -> Self {
        AssetContent::Bitcoin(content)
    }
}

/// What an output of a transaction holds.
#[derive(Debug, PartialEq, Eq)]
pub enum Content {
    Bitcoin(BitcoinContent),
    Withdrawal(WithdrawalContent),
    /// The funds of a market: its treasury, or the fees of its author.
    MarketFunds { market_id: [u8; 6], amount: BitcoinContent, is_fee: bool },
}

impl Content {
    pub fn is_bitcoin(&self) -> (r: bool)
        ensures
            r == (self is Bitcoin),
    {
        matches!(self, Content::Bitcoin(_))
    }

    pub fn is_withdrawal(&self) -> (r: bool)
        ensures
            r == (self is Withdrawal),
    {
        matches!(self, Content::Withdrawal(_))
    }

    pub fn is_market_funds(&self) -> (r: bool)
        ensures
            r == (self is MarketFunds),
    {
        matches!(self, Content::MarketFunds { .. })
    }

    pub fn is_market_treasury(&self) -> (r: bool)
        ensures
            r == (self is MarketFunds && !self->is_fee),
    {
        matches!(self, Content::MarketFunds { is_fee: false, .. })
    }

    pub fn is_market_author_fee(&self) -> (r: bool)
        ensures
            r == (self is MarketFunds && self->is_fee),
    {
        matches!(self, Content::MarketFunds { is_fee: true, .. })
    }

    /// Every content is one of an asset.
    pub fn is_asset(&self) -> (r: bool)
        ensures
            r,
    {
        matches!(self, Content::Bitcoin(_) | Content::Withdrawal(_) | Content::MarketFunds { .. })
    }

    /// The bitcoin that the content holds on this chain.
    pub open spec fn bitcoin_part(self) -> Option<BitcoinContent> {
        match self {
            Content::Bitcoin(value) => Some(value),
            Content::MarketFunds { market_id, amount, is_fee } => Some(amount),
            Content::Withdrawal(_) => None,
        }
    }

    pub fn as_bitcoin(self) -> (r: Option<BitcoinContent>)
        ensures
            r == self.bitcoin_part(),
    {
        match self {
            Content::Bitcoin(value) => Some(value),
            Content::MarketFunds { amount, .. } => Some(amount),
            Content::Withdrawal(_) => None,
        }
    }

    pub open spec fn asset_part(self) -> AssetContent {
        match self {
            Content::Bitcoin(value) => AssetContent::Bitcoin(value),
            Content::Withdrawal(withdrawal) => AssetContent::Withdrawal(withdrawal),
            Content::MarketFunds { market_id, amount, is_fee } => AssetContent::Bitcoin(amount),
        }
    }

    pub fn as_asset(self) -> (r: Option<AssetContent>)
        ensures
            r == Some(self.asset_part()),
    {
        match self {
            Content::Bitcoin(value) => Some(AssetContent::Bitcoin(value)),
            Content::Withdrawal(withdrawal) => Some(AssetContent::Withdrawal(withdrawal)),
            Content::MarketFunds { amount, .. } => Some(AssetContent::Bitcoin(amount)),
        }
    }

    /// The content once its output is known to be funded.
    pub open spec fn filled(self) -> FilledContent {
        match self {
            Content::Bitcoin(value) => FilledContent::Bitcoin(value),
            Content::Withdrawal(withdrawal) => FilledContent::BitcoinWithdrawal(withdrawal),
            Content::MarketFunds { market_id, amount, is_fee } => FilledContent::MarketFunds {
                market_id,
                amount,
                is_fee,
            },
        }
    }

    pub fn to_filled(&self) -> (r: FilledContent)
        ensures
            r == self.filled(),
    {
        match self {
            Content::Bitcoin(value) => FilledContent::Bitcoin(*value),
            Content::Withdrawal(withdrawal) => FilledContent::BitcoinWithdrawal(
                withdrawal.duplicate(),
            ),
            Content::MarketFunds { market_id, amount, is_fee } => FilledContent::MarketFunds {
                market_id: *market_id,
                amount: *amount,
                is_fee: *is_fee,
            },
        }
    }
}

impl Clone for Content {
    fn clone(&self) -> (r: Self)
        ensures
            r == *self,
    {
        self.duplicate()
    }
}

impl Duplicate for Content {
    fn duplicate(&self) -> (r: Self) {
        match self {
            Content::Bitcoin(value) => Content::Bitcoin(*value),
            Content::Withdrawal(withdrawal) => Content::Withdrawal(withdrawal.duplicate()),
            Content::MarketFunds { market_id, amount, is_fee } => Content::MarketFunds {
                market_id: *market_id,
                amount: *amount,
                is_fee: *is_fee,
            },
        }
    }
}

impl GetBitcoinValue for Content {
    open spec fn bitcoin_value(&self) -> u64 {
        match *self {
            Content::Bitcoin(value) => value.0,
            Content::Withdrawal(withdrawal) => withdrawal.bitcoin_value(),
            Content::MarketFunds { market_id, amount, is_fee } => amount.0,
        }
    }

    fn get_bitcoin_value(&self) -> (r: u64) {
        match self {
            Content::Bitcoin(value) => value.0,
            Content::Withdrawal(withdrawal) => withdrawal.get_bitcoin_value(),
            Content::MarketFunds { amount, .. } => amount.0,
        }
    }
}

impl From<BitcoinContent> for Content {
    fn from(content: BitcoinContent) -> (r: Self) {
        Content::Bitcoin(content)
    }
}

impl vstd::std_specs::convert::FromSpecImpl<BitcoinContent> for Content {
    open spec fn obeys_from_spec() -> bool {
        true
    }

    open spec fn from_spec(content: BitcoinContent) -> Self {
        Content::Bitcoin(content)
    }
}

impl From<AssetContent> for Content {
    fn from(content: AssetContent) -> (r: Self) {
        match content {
            AssetContent::Bitcoin(value) => Content::Bitcoin(value),
            AssetContent::Withdrawal(withdrawal) => Content::Withdrawal(withdrawal),
        }
    }
}

impl vstd::std_specs::convert::FromSpecImpl<AssetContent> for Content {
    open spec fn obeys_from_spec() -> bool {
        true
    }

    open spec fn from_spec(content: AssetContent) -> Self {
        match content {
            AssetContent::Bitcoin(value) => Content::Bitcoin(value),
            AssetContent::Withdrawal(withdrawal) => Content::Withdrawal(withdrawal),
        }
    }
}

/// What an output in the set of unspent outputs holds.
#[derive(Debug, PartialEq, Eq)]
pub enum FilledContent {
    Bitcoin(BitcoinContent),
    BitcoinWithdrawal(WithdrawalContent),
    /// The funds of a market: its treasury, or the fees of its author.
    MarketFunds { market_id: [u8; 6], amount: BitcoinContent, is_fee: bool },
}

impl FilledContent {
    pub fn is_market_funds(&self) -> (r: bool)
        ensures
            r == (self is MarketFunds),
    {
        matches!(self, FilledContent::MarketFunds { .. })
    }

    pub fn is_market_treasury(&self) -> (r: bool)
        ensures
            r == (self is MarketFunds && !self->is_fee),
    {
        matches!(self, FilledContent::MarketFunds { is_fee: false, .. })
    }

    pub fn is_market_author_fee(&self) -> (r: bool)
        ensures
            r == (self is MarketFunds && self->is_fee),
    {
        matches!(self, FilledContent::MarketFunds { is_fee: true, .. })
    }

    /// A withdrawal holds no asset of this chain.
    pub open spec fn asset_of(self) -> Option<(AssetId, u64)> {
        match self {
            FilledContent::Bitcoin(value) => Some((AssetId::Bitcoin, value.0)),
            FilledContent::MarketFunds { market_id, amount, is_fee } => Some(
                (AssetId::Bitcoin, amount.0),
            ),
            FilledContent::BitcoinWithdrawal(_) => None,
        }
    }

    pub fn asset_value(&self) -> (r: Option<(AssetId, u64)>)
        ensures
            r == self.asset_of(),
    {
        match self {
            FilledContent::Bitcoin(value) => Some((AssetId::Bitcoin, value.0)),
            FilledContent::MarketFunds { amount, .. } => Some((AssetId::Bitcoin, amount.0)),
            FilledContent::BitcoinWithdrawal(_) => None,
        }
    }

    pub fn is_bitcoin(&self) -> (r: bool)
        ensures
            r == (self is Bitcoin),
    {
        matches!(self, FilledContent::Bitcoin(_))
    }

    pub fn is_withdrawal(&self) -> (r: bool)
        ensures
            r == (self is BitcoinWithdrawal),
    {
        matches!(self, FilledContent::BitcoinWithdrawal(_))
    }

    /// The content as a transaction would write it; market funds become plain
    /// bitcoin.
    pub open spec fn unfilled(self) -> Content {
        match self {
            FilledContent::Bitcoin(value) => Content::Bitcoin(value),
            FilledContent::BitcoinWithdrawal(withdrawal) => Content::Withdrawal(withdrawal),
            FilledContent::MarketFunds { market_id, amount, is_fee } => Content::Bitcoin(amount),
        }
    }
}

impl Clone for FilledContent {
    fn clone(&self) -> (r: Self)
        ensures
            r == *self,
    {
        self.duplicate()
    }
}

impl Duplicate for FilledContent {
    fn duplicate(&self) -> (r: Self) {
        match self {
            FilledContent::Bitcoin(value) => FilledContent::Bitcoin(*value),
            FilledContent::BitcoinWithdrawal(withdrawal) => FilledContent::BitcoinWithdrawal(
                withdrawal.duplicate(),
            ),
            FilledContent::MarketFunds { market_id, amount, is_fee } => FilledContent::MarketFunds {
                market_id: *market_id,
                amount: *amount,
                is_fee: *is_fee,
            },
        }
    }
}

impl From<FilledContent> for Content {
    fn from(filled: FilledContent) -> (r: Self) {
        match filled {
            FilledContent::Bitcoin(value) => Content::Bitcoin(value),
            FilledContent::BitcoinWithdrawal(withdrawal) => Content::Withdrawal(withdrawal),
            FilledContent::MarketFunds { amount, .. } => Content::Bitcoin(amount),
        }
    }
}

impl vstd::std_specs::convert::FromSpecImpl<FilledContent> for Content {
    open spec fn obeys_from_spec() -> bool {
        true
    }

    open spec fn from_spec(filled: FilledContent) -> Self {
        filled.unfilled()
    }
}

impl GetBitcoinValue for FilledContent {
    open spec fn bitcoin_value(&self) -> u64 {
        self.unfilled().bitcoin_value()
    }

    fn get_bitcoin_value(&self) -> (r: u64) {
        match self {
            FilledContent::Bitcoin(value) => value.0,
            FilledContent::BitcoinWithdrawal(withdrawal) => withdrawal.get_bitcoin_value(),
            FilledContent::MarketFunds { amount, .. } => amount.0,
        }
    }
}

/// An output: who can spend it, what it holds, and a memo.
#[derive(Debug, PartialEq, Eq)]
pub struct Output<OutputContent = Content> {
    pub address: Address,
    pub content: OutputContent,
    pub memo: Box<[u8]>,
}

impl<C> Output<C> {
    /// An output without a memo.
    pub open spec fn is_plain(self, address: Address, content: C) -> bool {
        self.address == address && self.content == content && self.memo@.len() == 0
    }

    pub fn new(address: Address, content: C) -> (r: Self)
        ensures
            r.is_plain(address, content),
            forall|o: Self| #[trigger] o.is_plain(address, content) ==> o == r,
    {
        let memo = boxed(Vec::<u8>::new());
        let r = Output { address, content, memo };
        proof {
            assert forall|o: Self| #[trigger] o.is_plain(address, content) implies o == r by {
                assert(o.memo@ =~= r.memo@);
                lemma_boxed_equal(o.memo, r.memo);
            }
        }
        r
    }

    pub fn map_content<D, F>(self, f: F) -> (r: Output<D>) where F: FnOnce(C) -> D
        requires
            f.requires((self.content,)),
        ensures
            r.address == self.address,
            r.memo == self.memo,
            f.ensures((self.content,), r.content),
    {
        Output { address: self.address, content: f(self.content), memo: self.memo }
    }

    pub fn map_content_opt<D, F>(self, f: F) -> (r: Option<Output<D>>) where
        F: FnOnce(C) -> Option<D>,

        requires
            f.requires((self.content,)),
        ensures
            match r {
                Some(o) => o.address == self.address && o.memo == self.memo && f.ensures(
                    (self.content,),
                    Some(o.content),
                ),
                None => f.ensures((self.content,), None),
            },
    {
        match f(self.content) {
            Some(content) => Some(Output { address: self.address, content, memo: self.memo }),
            None => None,
        }
    }
}

impl<C: Duplicate> Clone for Output<C> {
    fn clone(&self) -> (r: Self)
        ensures
            r == *self,
    {
        self.duplicate()
    }
}

impl<C: Duplicate> Duplicate for Output<C> {
    fn duplicate(&self) -> (r: Self) {
        Output {
            address: self.address,
            content: self.content.duplicate(),
            memo: boxed_copy(&self.memo),
        }
    }
}

pub type TxOutput = Output<Content>;

impl Output<Content> {
    /// Whether the output holds plain bitcoin.
    pub fn is_bitcoin(&self) -> (r: bool)
        ensures
            r == (self.content is Bitcoin),
    {
        self.content.is_bitcoin()
    }

    /// Whether the output is a withdrawal.
    pub fn is_withdrawal(&self) -> (r: bool)
        ensures
            r == (self.content is Withdrawal),
    {
        self.content.is_withdrawal()
    }

    /// Whether the output holds an asset: every output does.
    pub fn is_asset(&self) -> (r: bool)
        ensures
            r,
    {
        self.content.is_asset()
    }

    /// The output once it is known to be funded.
    pub open spec fn filled(self) -> FilledOutput {
        Output { address: self.address, content: self.content.filled(), memo: self.memo }
    }

    pub fn to_filled(&self) -> (r: FilledOutput)
        ensures
            r == self.filled(),
    {
        Output {
            address: self.address,
            content: self.content.to_filled(),
            memo: boxed_copy(&self.memo),
        }
    }
}

impl GetBitcoinValue for Output<Content> {
    open spec fn bitcoin_value(&self) -> u64 {
        self.content.bitcoin_value()
    }

    fn get_bitcoin_value(&self) -> (r: u64) {
        self.content.get_bitcoin_value()
    }
}

pub type BitcoinOutput = Output<BitcoinContent>;

pub type AssetOutput = Output<AssetContent>;

pub type FilledOutput = Output<FilledContent>;

impl Output<FilledContent> {
    pub fn asset_value(&self) -> (r: Option<(AssetId, u64)>)
        ensures
            r == self.content.asset_of(),
    {
        self.content.asset_value()
    }

    pub fn content(&self) -> (r: &FilledContent)
        ensures
            *r == self.content,
    {
        &self.content
    }

    pub fn is_bitcoin(&self) -> (r: bool)
        ensures
            r == (self.content is Bitcoin),
    {
        self.content.is_bitcoin()
    }

    /// Whether the output is a withdrawal.
    pub fn is_withdrawal(&self) -> (r: bool)
        ensures
            r == (self.content is BitcoinWithdrawal),
    {
        self.content.is_withdrawal()
    }
}

impl From<FilledOutput> for TxOutput {
    fn from(filled: FilledOutput) -> (r: Self) {
        Output {
            address: filled.address,
            content: Content::from(filled.content),
            memo: filled.memo,
        }
    }
}

impl vstd::std_specs::convert::FromSpecImpl<FilledOutput> for TxOutput {
    open spec fn obeys_from_spec() -> bool {
        true
    }

    open spec fn from_spec(filled: FilledOutput) -> Self {
        Output {
            address: filled.address,
            content: filled.content.unfilled(),
            memo: filled.memo,
        }
    }
}

impl GetBitcoinValue for Output<FilledContent> {
    open spec fn bitcoin_value(&self) -> u64 {
        self.content.bitcoin_value()
    }

    fn get_bitcoin_value(&self) -> (r: u64) {
        self.content.get_bitcoin_value()
    }
}

/// An output that was spent, and where.
#[derive(Debug, PartialEq, Eq)]
pub struct SpentOutput<OutputContent = FilledContent> {
    pub output: Output<OutputContent>,
    pub inpoint: InPoint,
}

impl<C: Duplicate> Clone for SpentOutput<C> {
    fn clone(&self) -> (r: Self)
        ensures
            r == *self,
    {
        self.duplicate()
    }
}

impl<C: Duplicate> Duplicate for SpentOutput<C> {
    fn duplicate(&self) -> (r: Self) {
        SpentOutput { output: self.output.duplicate(), inpoint: self.inpoint }
    }
}

/// An output with the outpoint that names it.
#[derive(Debug, PartialEq, Eq)]
pub struct Pointed<OutputContent = Content> {
    pub outpoint: OutPoint,
    pub output: Output<OutputContent>,
}

/// Filling an output keeps its bitcoin value.
pub proof fn filling_keeps_the_value(output: TxOutput)
    ensures
        output.filled().bitcoin_value() == output.bitcoin_value(),
        output.filled().address == output.address,
{
}

} // verus!
