//! The canonical encoding of values as bytes.
//!
//! Numbers are little-endian, a list is its length and its elements, an
//! optional value is a zero or a one and the value, a variant is its place and
//! its fields.

use vstd::prelude::*;

use crate::bytes::{append, le32, le64, push_le32, push_le64};
use crate::types::transaction::output::MainAddress;
use crate::types::{Address, BlockHash, MainOutPoint, MerkleRoot, Real, Txid};

verus! {

/// A value has no encoding: a number in it is none, or a list is too long.
#[derive(Clone, Copy, Debug, PartialEq, Eq, Structural)]
pub struct EncodeError;

/// A value with a canonical encoding.
pub trait Encode: Sized {
    spec fn encodable(&self) -> bool;

    spec fn encoding(&self) -> Seq<u8>;

    /// Appends the encoding, if there is one.
    fn encode(&self, buf: &mut Vec<u8>) -> (r: Result<(), EncodeError>)
        ensures
            match r {
                Ok(()) => self.encodable() && final(buf)@ == old(buf)@ + self.encoding(),
                Err(_) => !self.encodable(),
            },
    ;
}

/// The encoding as a vector of its own.
pub fn to_bytes<T: Encode>(value: &T) -> (r: Result<Vec<u8>, EncodeError>)
    ensures
        match r {
            Ok(v) => value.encodable() && v@ == value.encoding(),
            Err(_) => !value.encodable(),
        },
{
    let mut buf: Vec<u8> = Vec::new();
    match value.encode(&mut buf) {
        Ok(()) => {
            assert(buf@ =~= value.encoding());
            Ok(buf)
        },
        Err(e) => Err(e),
    }
}

impl Encode for u8 {
    open spec fn encodable(&self) -> bool {
        true
    }

    open spec fn encoding(&self) -> Seq<u8> {
        seq![*self]
    }

    fn encode(&self, buf: &mut Vec<u8>) -> (r: Result<(), EncodeError>) {
        buf.push(*self);
        assert(buf@ =~= old(buf)@ + self.encoding());
        Ok(())
    }
}

impl Encode for bool {
    open spec fn encodable(&self) -> bool {
        true
    }

    open spec fn encoding(&self) -> Seq<u8> {
        seq![if *self { 1u8 } else { 0u8 }]
    }

    fn encode(&self, buf: &mut Vec<u8>) -> (r: Result<(), EncodeError>) {
        buf.push(if *self { 1 } else { 0 });
        assert(buf@ =~= old(buf)@ + self.encoding());
        Ok(())
    }
}

impl Encode for u32 {
    open spec fn encodable(&self) -> bool {
        true
    }

    open spec fn encoding(&self) -> Seq<u8> {
        le32(*self)
    }

    fn encode(&self, buf: &mut Vec<u8>) -> (r: Result<(), EncodeError>) {
        push_le32(buf, *self);
        Ok(())
    }
}

impl Encode for u64 {
    open spec fn encodable(&self) -> bool {
        true
    }

    open spec fn encoding(&self) -> Seq<u8> {
        le64(*self)
    }

    fn encode(&self, buf: &mut Vec<u8>) -> (r: Result<(), EncodeError>) {
        push_le64(buf, *self);
        Ok(())
    }
}

/// A signed number modulo two to the power of 64.
pub open spec fn twos_complement(x: i64) -> u64 {
    if x >= 0 {
        x as u64
    } else {
        (0x1_0000_0000_0000_0000 + x) as u64
    }
}

impl Encode for i64 {
    open spec fn encodable(&self) -> bool {
        true
    }

    open spec fn encoding(&self) -> Seq<u8> {
        le64(twos_complement(*self))
    }

    fn encode(&self, buf: &mut Vec<u8>) -> (r: Result<(), EncodeError>) {
        let x: i64 = *self;
        if x >= 0 {
            push_le64(buf, x as u64);
        } else {
            push_le64(buf, u64::MAX - (-(x + 1)) as u64);
        }
        Ok(())
    }
}

impl Encode for Real {
    open spec fn encodable(&self) -> bool {
        !self.spec_is_nan()
    }

    open spec fn encoding(&self) -> Seq<u8> {
        le64(self.bits)
    }

    fn encode(&self, buf: &mut Vec<u8>) -> (r: Result<(), EncodeError>) {
        if self.is_nan() {
            return Err(EncodeError);
        }
        push_le64(buf, self.bits);
        Ok(())
    }
}

impl<const N: usize> Encode for [u8; N] {
    open spec fn encodable(&self) -> bool {
        true
    }

    open spec fn encoding(&self) -> Seq<u8> {
        self@
    }

    fn encode(&self, buf: &mut Vec<u8>) -> (r: Result<(), EncodeError>) {
        append(buf, self.as_slice());
        Ok(())
    }
}

impl Encode for String {
    open spec fn encodable(&self) -> bool {
        vstd::utf8::encode_utf8(self@).len() <= u32::MAX
    }

    open spec fn encoding(&self) -> Seq<u8> {
        le32(vstd::utf8::encode_utf8(self@).len() as u32) + vstd::utf8::encode_utf8(self@)
    }

    fn encode(&self, buf: &mut Vec<u8>) -> (r: Result<(), EncodeError>) {
        let bytes = self.as_str().as_bytes();
        if bytes.len() as u64 > u32::MAX as u64 {
            return Err(EncodeError);
        }
        push_le32(buf, bytes.len() as u32);
        append(buf, bytes);
        assert(buf@ =~= old(buf)@ + self.encoding());
        Ok(())
    }
}

impl<T: Encode> Encode for Option<T> {
    open spec fn encodable(&self) -> bool {
        match *self {
            Some(v) => v.encodable(),
            None => true,
        }
    }

    open spec fn encoding(&self) -> Seq<u8> {
        match *self {
            Some(v) => seq![1u8] + v.encoding(),
            None => seq![0u8],
        }
    }

    fn encode(&self, buf: &mut Vec<u8>) -> (r: Result<(), EncodeError>) {
        match self {
            Some(v) => {
                buf.push(1);
                match v.encode(buf) {
                    Ok(()) => {
                        assert(buf@ =~= old(buf)@ + self.encoding());
                        Ok(())
                    },
                    Err(e) => Err(e),
                }
            },
            None => {
                buf.push(0);
                assert(buf@ =~= old(buf)@ + self.encoding());
                Ok(())
            },
        }
    }
}

/// The encodings of the elements, one after the other.
pub open spec fn encodings<T: Encode>(s: Seq<T>) -> Seq<u8>
    decreases s.len(),
{
    if s.len() == 0 {
        Seq::empty()
    } else {
        encodings(s.drop_last()) + s.last().encoding()
    }
}

impl<T: Encode> Encode for Box<[T]> {
    open spec fn encodable(&self) -> bool {
        self@.len() <= u32::MAX && forall|i: int|
            0 <= i < self@.len() ==> (#[trigger] self@[i]).encodable()
    }

    open spec fn encoding(&self) -> Seq<u8> {
        le32(self@.len() as u32) + encodings(self@)
    }

    fn encode(&self, buf: &mut Vec<u8>) -> (r: Result<(), EncodeError>) {
        let n: usize = self.len();
        if n as u64 > u32::MAX as u64 {
            return Err(EncodeError);
        }
        push_le32(buf, n as u32);
        let mut i: usize = 0;
        assert(buf@ =~= old(buf)@ + le32(n as u32) + encodings(self@.subrange(0, 0)));
        while i < n
            invariant
                i <= n,
                n == self@.len(),
                forall|j: int| 0 <= j < i ==> (#[trigger] self@[j]).encodable(),
                buf@ == old(buf)@ + le32(n as u32) + encodings(self@.subrange(0, i as int)),
            decreases n - i,
        {
            match self[i].encode(buf) {
                Ok(()) => {},
                Err(e) => {
                    assert(!self@[i as int].encodable());
                    return Err(e);
                },
            }
            proof {
                let head = self@.subrange(0, i + 1);
                assert(head.drop_last() =~= self@.subrange(0, i as int));
                assert(buf@ =~= old(buf)@ + le32(n as u32) + encodings(head));
            }
            i += 1;
        }
        assert(self@.subrange(0, n as int) =~= self@);
        assert(buf@ =~= old(buf)@ + self.encoding());
        Ok(())
    }
}

impl Encode for Address {
    open spec fn encodable(&self) -> bool {
        true
    }

    open spec fn encoding(&self) -> Seq<u8> {
        self.0@
    }

    fn encode(&self, buf: &mut Vec<u8>) -> (r: Result<(), EncodeError>) {
        append(buf, self.0.as_slice());
        Ok(())
    }
}

impl Encode for Txid {
    open spec fn encodable(&self) -> bool {
        true
    }

    open spec fn encoding(&self) -> Seq<u8> {
        self.0@
    }

    fn encode(&self, buf: &mut Vec<u8>) -> (r: Result<(), EncodeError>) {
        append(buf, self.0.as_slice());
        Ok(())
    }
}

impl Encode for MerkleRoot {
    open spec fn encodable(&self) -> bool {
        true
    }

    open spec fn encoding(&self) -> Seq<u8> {
        self.0@
    }

    fn encode(&self, buf: &mut Vec<u8>) -> (r: Result<(), EncodeError>) {
        append(buf, self.0.as_slice());
        Ok(())
    }
}

impl Encode for BlockHash {
    open spec fn encodable(&self) -> bool {
        true
    }

    open spec fn encoding(&self) -> Seq<u8> {
        self.0@
    }

    fn encode(&self, buf: &mut Vec<u8>) -> (r: Result<(), EncodeError>) {
        append(buf, self.0.as_slice());
        Ok(())
    }
}

impl Encode for MainOutPoint {
    open spec fn encodable(&self) -> bool {
        true
    }

    open spec fn encoding(&self) -> Seq<u8> {
        self.txid.0@ + le32(self.vout)
    }

    fn encode(&self, buf: &mut Vec<u8>) -> (r: Result<(), EncodeError>) {
        append(buf, self.txid.0.as_slice());
        push_le32(buf, self.vout);
        assert(buf@ =~= old(buf)@ + self.encoding());
        Ok(())
    }
}

impl Encode for MainAddress {
    open spec fn encodable(&self) -> bool {
        self.script_pubkey@.len() <= u32::MAX
    }

    /// The script, as a list of bytes.
    open spec fn encoding(&self) -> Seq<u8> {
        le32(self.script_pubkey@.len() as u32) + self.script_pubkey@
    }

    fn encode(&self, buf: &mut Vec<u8>) -> (r: Result<(), EncodeError>) {
        let n: usize = self.script_pubkey.len();
        if n as u64 > u32::MAX as u64 {
            return Err(EncodeError);
        }
        push_le32(buf, n as u32);
        append(buf, &self.script_pubkey);
        assert(buf@ =~= old(buf)@ + self.encoding());
        Ok(())
    }
}

/// A list of bytes is encoded as its length and the bytes.
pub proof fn lemma_byte_list_encoding(s: Seq<u8>)
    ensures
        encodings(s) == s,
    decreases s.len(),
{
    if s.len() > 0 {
        lemma_byte_list_encoding(s.drop_last());
        assert(encodings(s) =~= s);
    } else {
        assert(encodings(s) =~= s);
    }
}

} // verus!
