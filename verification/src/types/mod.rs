//! Addresses, hashes and numbers.

pub mod block;
pub mod encoding;
pub mod encoding_laws;
pub mod hashes;
pub mod net;
pub mod real_laws;
pub mod transaction;

use vstd::prelude::*;
use vstd::std_specs::cmp::PartialEqSpecImpl;

use crate::bytes::{be32, be32_injective, be64, be64_injective, push_be32, push_be64};
use crate::bytes::{boxed, lemma_array_equal, lemma_boxed_equal, same_bytes, to_vec};
use crate::table::Key;

verus! {

/// An address: the first bytes of the hash of a verifying key.
#[derive(Clone, Copy, Debug, Eq, PartialOrd, Ord, Hash)]
pub struct Address(pub [u8; 20]);

impl PartialEq for Address {
    fn eq(&self, other: &Self) -> (r: bool) {
        same_bytes(&self.0, &other.0)
    }
}

impl PartialEqSpecImpl for Address {
    open spec fn obeys_eq_spec() -> bool {
        true
    }

    open spec fn eq_spec(&self, other: &Self) -> bool {
        *self == *other
    }
}

impl Default for Address {
    fn default() -> (r: Self)
        ensures
            r.0@ == Seq::new(20, |i: int| 0u8),
    {
        let bytes = [0u8; 20];
        assert(bytes@ =~= Seq::new(20, |i: int| 0u8));
        Address(bytes)
    }
}

impl Key for Address {
    open spec fn key_bytes(&self) -> Seq<u8> {
        self.0@
    }

    proof fn key_bytes_injective(a: Self, b: Self) {
        assert(a.key_bytes() == a.0@ && b.key_bytes() == b.0@);
        lemma_array_equal(a.0, b.0);
    }

    fn to_key_bytes(&self) -> (r: Vec<u8>) {
        to_vec(self.0.as_slice())
    }
}

/// The id of a transaction.
#[derive(Clone, Copy, Debug, Eq, PartialOrd, Ord, Hash)]
pub struct Txid(pub [u8; 32]);

impl PartialEq for Txid {
    fn eq(&self, other: &Self) -> (r: bool) {
        same_bytes(&self.0, &other.0)
    }
}

impl PartialEqSpecImpl for Txid {
    open spec fn obeys_eq_spec() -> bool {
        true
    }

    open spec fn eq_spec(&self, other: &Self) -> bool {
        *self == *other
    }
}

impl Default for Txid {
    fn default() -> (r: Self)
        ensures
            r.0@ == Seq::new(32, |i: int| 0u8),
    {
        let bytes = [0u8; 32];
        assert(bytes@ =~= Seq::new(32, |i: int| 0u8));
        Txid(bytes)
    }
}

impl Key for Txid {
    open spec fn key_bytes(&self) -> Seq<u8> {
        self.0@
    }

    proof fn key_bytes_injective(a: Self, b: Self) {
        assert(a.key_bytes() == a.0@ && b.key_bytes() == b.0@);
        lemma_array_equal(a.0, b.0);
    }

    fn to_key_bytes(&self) -> (r: Vec<u8>) {
        to_vec(self.0.as_slice())
    }
}

/// The root of the hash tree over a block body.
#[derive(Clone, Copy, Debug, Eq, PartialOrd, Ord, Hash)]
pub struct MerkleRoot(pub [u8; 32]);

impl PartialEq for MerkleRoot {
    fn eq(&self, other: &Self) -> (r: bool) {
        same_bytes(&self.0, &other.0)
    }
}

impl PartialEqSpecImpl for MerkleRoot {
    open spec fn obeys_eq_spec() -> bool {
        true
    }

    open spec fn eq_spec(&self, other: &Self) -> bool {
        *self == *other
    }
}

impl Default for MerkleRoot {
    fn default() -> (r: Self)
        ensures
            r.0@ == Seq::new(32, |i: int| 0u8),
    {
        let bytes = [0u8; 32];
        assert(bytes@ =~= Seq::new(32, |i: int| 0u8));
        MerkleRoot(bytes)
    }
}

impl Key for MerkleRoot {
    open spec fn key_bytes(&self) -> Seq<u8> {
        self.0@
    }

    proof fn key_bytes_injective(a: Self, b: Self) {
        assert(a.key_bytes() == a.0@ && b.key_bytes() == b.0@);
        lemma_array_equal(a.0, b.0);
    }

    fn to_key_bytes(&self) -> (r: Vec<u8>) {
        to_vec(self.0.as_slice())
    }
}

/// The hash of a sidechain block header.
#[derive(Clone, Copy, Debug, Eq, PartialOrd, Ord, Hash)]
pub struct BlockHash(pub [u8; 32]);

impl PartialEq for BlockHash {
    fn eq(&self, other: &Self) -> (r: bool) {
        same_bytes(&self.0, &other.0)
    }
}

impl PartialEqSpecImpl for BlockHash {
    open spec fn obeys_eq_spec() -> bool {
        true
    }

    open spec fn eq_spec(&self, other: &Self) -> bool {
        *self == *other
    }
}

impl Default for BlockHash {
    fn default() -> (r: Self)
        ensures
            r.0@ == Seq::new(32, |i: int| 0u8),
    {
        let bytes = [0u8; 32];
        assert(bytes@ =~= Seq::new(32, |i: int| 0u8));
        BlockHash(bytes)
    }
}

impl Key for BlockHash {
    open spec fn key_bytes(&self) -> Seq<u8> {
        self.0@
    }

    proof fn key_bytes_injective(a: Self, b: Self) {
        assert(a.key_bytes() == a.0@ && b.key_bytes() == b.0@);
        lemma_array_equal(a.0, b.0);
    }

    fn to_key_bytes(&self) -> (r: Vec<u8>) {
        to_vec(self.0.as_slice())
    }
}

/// The id of a withdrawal bundle.
#[derive(Clone, Copy, Debug, Eq, PartialOrd, Ord, Hash)]
pub struct M6id(pub [u8; 32]);

impl PartialEq for M6id {
    fn eq(&self, other: &Self) -> (r: bool) {
        same_bytes(&self.0, &other.0)
    }
}

impl PartialEqSpecImpl for M6id {
    open spec fn obeys_eq_spec() -> bool {
        true
    }

    open spec fn eq_spec(&self, other: &Self) -> bool {
        *self == *other
    }
}

impl Default for M6id {
    fn default() -> (r: Self)
        ensures
            r.0@ == Seq::new(32, |i: int| 0u8),
    {
        let bytes = [0u8; 32];
        assert(bytes@ =~= Seq::new(32, |i: int| 0u8));
        M6id(bytes)
    }
}

impl Key for M6id {
    open spec fn key_bytes(&self) -> Seq<u8> {
        self.0@
    }

    proof fn key_bytes_injective(a: Self, b: Self) {
        assert(a.key_bytes() == a.0@ && b.key_bytes() == b.0@);
        lemma_array_equal(a.0, b.0);
    }

    fn to_key_bytes(&self) -> (r: Vec<u8>) {
        to_vec(self.0.as_slice())
    }
}

/// The hash of a mainchain block header.
#[derive(Clone, Copy, Debug, Eq, PartialOrd, Ord, Hash)]
pub struct MainBlockHash(pub [u8; 32]);

impl PartialEq for MainBlockHash {
    fn eq(&self, other: &Self) -> (r: bool) {
        same_bytes(&self.0, &other.0)
    }
}

impl PartialEqSpecImpl for MainBlockHash {
    open spec fn obeys_eq_spec() -> bool {
        true
    }

    open spec fn eq_spec(&self, other: &Self) -> bool {
        *self == *other
    }
}

impl Default for MainBlockHash {
    fn default() -> (r: Self)
        ensures
            r.0@ == Seq::new(32, |i: int| 0u8),
    {
        let bytes = [0u8; 32];
        assert(bytes@ =~= Seq::new(32, |i: int| 0u8));
        MainBlockHash(bytes)
    }
}

impl Key for MainBlockHash {
    open spec fn key_bytes(&self) -> Seq<u8> {
        self.0@
    }

    proof fn key_bytes_injective(a: Self, b: Self) {
        assert(a.key_bytes() == a.0@ && b.key_bytes() == b.0@);
        lemma_array_equal(a.0, b.0);
    }

    fn to_key_bytes(&self) -> (r: Vec<u8>) {
        to_vec(self.0.as_slice())
    }
}

/// The id of a mainchain transaction.
#[derive(Clone, Copy, Debug, Eq, PartialOrd, Ord, Hash)]
pub struct MainTxid(pub [u8; 32]);

impl PartialEq for MainTxid {
    fn eq(&self, other: &Self) -> (r: bool) {
        same_bytes(&self.0, &other.0)
    }
}

impl PartialEqSpecImpl for MainTxid {
    open spec fn obeys_eq_spec() -> bool {
        true
    }

    open spec fn eq_spec(&self, other: &Self) -> bool {
        *self == *other
    }
}

impl Default for MainTxid {
    fn default() -> (r: Self)
        ensures
            r.0@ == Seq::new(32, |i: int| 0u8),
    {
        let bytes = [0u8; 32];
        assert(bytes@ =~= Seq::new(32, |i: int| 0u8));
        MainTxid(bytes)
    }
}

impl Key for MainTxid {
    open spec fn key_bytes(&self) -> Seq<u8> {
        self.0@
    }

    proof fn key_bytes_injective(a: Self, b: Self) {
        assert(a.key_bytes() == a.0@ && b.key_bytes() == b.0@);
        lemma_array_equal(a.0, b.0);
    }

    fn to_key_bytes(&self) -> (r: Vec<u8>) {
        to_vec(self.0.as_slice())
    }
}

/// An output of a mainchain transaction.
#[derive(Clone, Copy, Debug, Eq, PartialOrd, Ord, Hash)]
pub struct MainOutPoint {
    pub txid: MainTxid,
    pub vout: u32,
}

impl PartialEq for MainOutPoint {
    fn eq(&self, other: &Self) -> (r: bool) {
        self.txid == other.txid && self.vout == other.vout
    }
}

impl PartialEqSpecImpl for MainOutPoint {
    open spec fn obeys_eq_spec() -> bool {
        true
    }

    open spec fn eq_spec(&self, other: &Self) -> bool {
        *self == *other
    }
}

/// The assets that outputs hold.
#[derive(Clone, Copy, Debug, PartialEq, Eq, PartialOrd, Ord, Hash, Structural)]
pub enum AssetId {
    Bitcoin,
}

/// A sum of amounts does not fit.
#[derive(Clone, Copy, Debug, PartialEq, Eq, Structural)]
pub struct AmountOverflowError;

/// A difference of amounts is negative.
#[derive(Clone, Copy, Debug, PartialEq, Eq, Structural)]
pub struct AmountUnderflowError;

/// A value that can be copied exactly.
pub trait Duplicate: Sized {
    fn duplicate(&self) -> (r: Self)
        ensures
            r == *self,
    ;
}

/// A copy of a boxed slice, element by element.
pub fn boxed_duplicate<T: Duplicate>(b: &Box<[T]>) -> (r: Box<[T]>)
    ensures
        r == *b,
{
    let mut v: Vec<T> = Vec::new();
    let mut i: usize = 0;
    while i < b.len()
        invariant
            i <= b@.len(),
            v@ == b@.subrange(0, i as int),
        decreases b@.len() - i,
    {
        v.push(b[i].duplicate());
        i += 1;
        assert(v@ =~= b@.subrange(0, i as int));
    }
    assert(v@ =~= b@);
    let r = boxed(v);
    proof {
        lemma_boxed_equal(r, *b);
    }
    r
}

impl<T: Duplicate> Duplicate for Option<T> {
    fn duplicate(&self) -> (r: Self) {
        match self {
            Some(v) => Some(v.duplicate()),
            None => None,
        }
    }
}

impl Duplicate for String {
    fn duplicate(&self) -> (r: Self) {
        self.clone()
    }
}

/// A double-precision number, held by its bit pattern.
#[derive(Clone, Copy, Debug, PartialEq, Eq, Hash, Structural)]
pub struct Real {
    pub bits: u64,
}

impl Real {
    /// Whether the bit pattern stands for no number: the exponent is all ones
    /// and the fraction is not zero.
    pub open spec fn spec_is_nan(self) -> bool {
        self.bits % 0x8000_0000_0000_0000 > 0x7ff0_0000_0000_0000
    }

    /// The place of a number in the order of numbers; the two zeros share one.
    pub open spec fn rank(self) -> int {
        let magnitude = self.bits as int % 0x8000_0000_0000_0000;
        if self.bits >= 0x8000_0000_0000_0000 {
            -magnitude
        } else {
            magnitude
        }
    }

    /// Whether the bit pattern stands for a number that is not infinite.
    pub open spec fn finite(self) -> bool {
        self.bits % 0x8000_0000_0000_0000 < 0x7ff0_0000_0000_0000
    }

    pub fn is_finite(self) -> (r: bool)
        ensures
            r == self.finite(),
    {
        self.bits % 0x8000_0000_0000_0000 < 0x7ff0_0000_0000_0000
    }

    /// Whether the number is less than `other`; false where either is none.
    pub open spec fn less(self, other: Real) -> bool {
        !self.spec_is_nan() && !other.spec_is_nan() && self.rank() < other.rank()
    }

    pub fn is_less(self, other: Real) -> (r: bool)
        ensures
            r == self.less(other),
    {
        if self.is_nan() || other.is_nan() {
            return false;
        }
        let m: u64 = self.bits % 0x8000_0000_0000_0000;
        let n: u64 = other.bits % 0x8000_0000_0000_0000;
        if self.bits >= 0x8000_0000_0000_0000 {
            if other.bits >= 0x8000_0000_0000_0000 {
                n < m
            } else {
                m > 0 || n > 0
            }
        } else {
            if other.bits >= 0x8000_0000_0000_0000 {
                false
            } else {
                m < n
            }
        }
    }

    #[verifier::when_used_as_spec(spec_is_nan)]
    pub fn is_nan(self) -> (r: bool)
        ensures
            r == self.spec_is_nan(),
    {
        self.bits % 0x8000_0000_0000_0000 > 0x7ff0_0000_0000_0000
    }
}

impl Key for u32 {
    open spec fn key_bytes(&self) -> Seq<u8> {
        be32(*self)
    }

    proof fn key_bytes_injective(a: Self, b: Self) {
        be32_injective(a, b);
    }

    fn to_key_bytes(&self) -> (r: Vec<u8>) {
        let mut r: Vec<u8> = Vec::new();
        push_be32(&mut r, *self);
        assert(r@ =~= be32(*self));
        r
    }
}

impl Key for u64 {
    open spec fn key_bytes(&self) -> Seq<u8> {
        be64(*self)
    }

    proof fn key_bytes_injective(a: Self, b: Self) {
        be64_injective(a, b);
    }

    fn to_key_bytes(&self) -> (r: Vec<u8>) {
        let mut r: Vec<u8> = Vec::new();
        push_be64(&mut r, *self);
        assert(r@ =~= be64(*self));
        r
    }
}

} // verus!
