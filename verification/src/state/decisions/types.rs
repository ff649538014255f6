//! Decisions, their ids, their states, and the periods they belong to.

use std::cmp::Ordering;

use vstd::prelude::*;
use vstd::std_specs::cmp::{PartialEqSpecImpl, PartialOrdSpec, PartialOrdSpecImpl};
use vstd::string::*;
use vstd::utf8::encode_utf8;

use crate::bytes::{bytes_before, is_before, lemma_array_equal, same_bytes, to_vec};
use crate::hex::{decimal, hex_bytes, hex_digit, hex_round_trip, hex_text, hex_value};
use crate::hex::push_decimal;
use crate::state::{Error, Reason};
use crate::table::Key;
use crate::types::encoding::Encode;
use crate::types::hashes::{blake3_hash, hash};
use crate::types::{boxed_duplicate, Duplicate, Real, Txid};

verus! {

/// The id of a decision, three bytes: the top bit says whether the decision is
/// a standard one, the next seven bits hold its period, and the last two bytes
/// its index in the period.
#[derive(Clone, Copy, Debug, Eq, Ord, Hash)]
pub struct DecisionId(pub [u8; 3]);

impl PartialEq for DecisionId {
    fn eq(&self, other: &Self) -> (r: bool) {
        same_bytes(&self.0, &other.0)
    }
}

impl PartialEqSpecImpl for DecisionId {
    open spec fn obeys_eq_spec() -> bool {
        true
    }

    open spec fn eq_spec(&self, other: &Self) -> bool {
        *self == *other
    }
}

impl PartialOrd for DecisionId {
    fn partial_cmp(&self, other: &Self) -> (r: Option<Ordering>) {
        if is_before(self.0.as_slice(), other.0.as_slice()) {
            Some(Ordering::Less)
        } else if *self == *other {
            Some(Ordering::Equal)
        } else {
            Some(Ordering::Greater)
        }
    }
}

impl PartialOrdSpecImpl for DecisionId {
    open spec fn obeys_partial_cmp_spec() -> bool {
        true
    }

    open spec fn partial_cmp_spec(&self, other: &Self) -> Option<Ordering> {
        if bytes_before(self.0@, other.0@) {
            Some(Ordering::Less)
        } else if *self == *other {
            Some(Ordering::Equal)
        } else {
            Some(Ordering::Greater)
        }
    }
}

impl Key for DecisionId {
    open spec fn key_bytes(&self) -> Seq<u8> {
        self.0@
    }

    proof fn key_bytes_injective(a: Self, b: Self) {
        assert(a.key_bytes() == a.0@ && b.key_bytes() == b.0@);
        lemma_array_equal(a.0, b.0);
    }

    fn to_key_bytes(&self) -> (r: Vec<u8>) {
        to_vec(self.0.as_slice())
    }
}

pub const MAX_PERIOD_INDEX: u32 = 127;

pub const MAX_DECISION_INDEX: u32 = 65535;

/// Why a period and an index do not fit into an id.
pub open spec fn decision_bounds_error(period: u32, index: u32) -> Option<Error> {
    if period > MAX_PERIOD_INDEX {
        Some(
            Error::InvalidDecisionId {
                reason: Reason::PeriodAboveMaximum { period, maximum: MAX_PERIOD_INDEX },
            },
        )
    } else if index > MAX_DECISION_INDEX {
        Some(
            Error::InvalidDecisionId {
                reason: Reason::IndexAboveMaximum { index, maximum: MAX_DECISION_INDEX },
            },
        )
    } else {
        None
    }
}

fn validate_decision_bounds(period: u32, index: u32) -> (r: Result<(), Error>)
    ensures
        match r {
            Ok(()) => decision_bounds_error(period, index) is None,
            Err(e) => decision_bounds_error(period, index) == Some(e),
        },
{
    if period > MAX_PERIOD_INDEX {
        return Err(
            Error::InvalidDecisionId {
                reason: Reason::PeriodAboveMaximum { period, maximum: MAX_PERIOD_INDEX },
            },
        );
    }
    if index > MAX_DECISION_INDEX {
        return Err(
            Error::InvalidDecisionId {
                reason: Reason::IndexAboveMaximum { index, maximum: MAX_DECISION_INDEX },
            },
        );
    }
    Ok(())
}

/// The byte that a chunk of an id's text stands for: two digits, or a plus
/// sign and a digit.
pub open spec fn chunk_value(a: u8, b: u8) -> Option<int> {
    match (hex_value(a), hex_value(b)) {
        (Some(high), Some(low)) => Some(16 * high + low),
        (None, Some(low)) => if a == 43 {
            Some(low)
        } else {
            None
        },
        _ => None,
    }
}

fn parse_chunk(a: u8, b: u8) -> (r: Option<u8>)
    ensures
        match r {
            Some(v) => chunk_value(a, b) == Some(v as int),
            None => chunk_value(a, b) is None,
        },
{
    match (hex_digit(a), hex_digit(b)) {
        (Some(high), Some(low)) => Some(16 * high + low),
        (None, Some(low)) => if a == 43 {
            Some(low)
        } else {
            None
        },
        _ => None,
    }
}

impl DecisionId {
    pub open spec fn standard(self) -> bool {
        self.0[0] >= 128
    }

    pub open spec fn period(self) -> u32 {
        (self.0[0] % 128) as u32
    }

    pub open spec fn index(self) -> u32 {
        (256 * self.0[1] + self.0[2]) as u32
    }

    pub fn new(is_standard: bool, period: u32, index: u32) -> (r: Result<Self, Error>)
        ensures
            match r {
                Ok(id) => {
                    &&& decision_bounds_error(period, index) is None
                    &&& id.standard() == is_standard
                    &&& id.period() == period
                    &&& id.index() == index
                },
                Err(e) => decision_bounds_error(period, index) == Some(e),
            },
    {
        match validate_decision_bounds(period, index) {
            Err(e) => return Err(e),
            Ok(()) => {},
        }
        let top: u8 = if is_standard {
            128
        } else {
            0
        };
        let bytes = [top + period as u8, (index / 256) as u8, (index % 256) as u8];
        Ok(DecisionId(bytes))
    }

    pub fn is_standard(self) -> (r: bool)
        ensures
            r == self.standard(),
    {
        self.0[0] >= 128
    }

    pub fn period_index(self) -> (r: u32)
        ensures
            r == self.period(),
            r <= MAX_PERIOD_INDEX,
    {
        (self.0[0] % 128) as u32
    }

    pub fn decision_index(self) -> (r: u32)
        ensures
            r == self.index(),
            r <= MAX_DECISION_INDEX,
    {
        256 * (self.0[1] as u32) + self.0[2] as u32
    }

    pub fn as_bytes(self) -> (r: [u8; 3])
        ensures
            r == self.0,
    {
        self.0
    }

    /// Any three bytes are an id.
    pub fn from_bytes(bytes: [u8; 3]) -> (r: Result<Self, Error>)
        ensures
            r == Ok::<Self, Error>(DecisionId(bytes)),
    {
        let id = DecisionId(bytes);
        match validate_decision_bounds(id.period_index(), id.decision_index()) {
            Err(e) => Err(e),
            Ok(()) => Ok(id),
        }
    }

    /// What the text of an id stands for: six bytes of text, in three chunks.
    pub open spec fn parsed(text: Seq<u8>) -> Result<Seq<u8>, Error> {
        if text.len() != 6 {
            Err(
                Error::InvalidDecisionId {
                    reason: Reason::Text("Decision ID hex must be exactly 6 characters (3 bytes)"),
                },
            )
        } else {
            match (
                chunk_value(text[0], text[1]),
                chunk_value(text[2], text[3]),
                chunk_value(text[4], text[5]),
            ) {
                (Some(a), Some(b), Some(c)) => Ok(seq![a as u8, b as u8, c as u8]),
                _ => Err(
                    Error::InvalidDecisionId {
                        reason: Reason::Text("Invalid decision ID hex format"),
                    },
                ),
            }
        }
    }

    pub fn from_hex(hex_str: &str) -> (r: Result<Self, Error>)
        ensures
            match r {
                Ok(id) => DecisionId::parsed(hex_str.spec_bytes()) == Ok::<Seq<u8>, Error>(id.0@),
                Err(e) => DecisionId::parsed(hex_str.spec_bytes()) == Err::<Seq<u8>, Error>(e),
            },
    {
        let text = hex_str.as_bytes();
        if text.len() != 6 {
            return Err(
                Error::InvalidDecisionId {
                    reason: Reason::Text("Decision ID hex must be exactly 6 characters (3 bytes)"),
                },
            );
        }
        match (
            parse_chunk(text[0], text[1]),
            parse_chunk(text[2], text[3]),
            parse_chunk(text[4], text[5]),
        ) {
            (Some(a), Some(b), Some(c)) => {
                let bytes = [a, b, c];
                assert(bytes@ =~= seq![a, b, c]);
                DecisionId::from_bytes(bytes)
            },
            _ => Err(
                Error::InvalidDecisionId { reason: Reason::Text("Invalid decision ID hex format") },
            ),
        }
    }

    pub fn to_hex(self) -> (r: String)
        ensures
            r@ == hex_text(self.0@),
    {
        crate::hex::encode(self.0.as_slice())
    }

    /// A decision is voted on in the period after the one it is claimed in.
    pub fn voting_period(self) -> (r: u32)
        ensures
            r == self.period() + 1,
    {
        self.period_index() + 1
    }
}

/// An id is its parts: two ids with the same parts are the same.
pub proof fn decision_id_is_its_parts(a: DecisionId, b: DecisionId)
    requires
        a.standard() == b.standard(),
        a.period() == b.period(),
        a.index() == b.index(),
    ensures
        a == b,
{
    assert(a.0 =~= b.0);
}

/// The parts of an id come before those of another: an id that is not standard
/// before a standard one, then by the period, then by the index.
pub open spec fn parts_before(a: DecisionId, b: DecisionId) -> bool {
    if a.standard() != b.standard() {
        b.standard()
    } else if a.period() != b.period() {
        a.period() < b.period()
    } else {
        a.index() < b.index()
    }
}

/// Ids are in the order of their bytes, and that is the order of their parts.
pub proof fn ids_are_in_the_order_of_their_parts(a: DecisionId, b: DecisionId)
    ensures
        bytes_before(a.0@, b.0@) <==> parts_before(a, b),
        PartialOrdSpec::partial_cmp_spec(&a, &b) == Some(Ordering::Less) <==> parts_before(a, b),
        PartialOrdSpec::partial_cmp_spec(&a, &b) == Some(Ordering::Equal) <==> a == b,
        PartialOrdSpec::partial_cmp_spec(&a, &b) == Some(Ordering::Greater) <==> parts_before(b, a),
{
    let x = a.0@;
    let y = b.0@;
    reveal_with_fuel(bytes_before, 4);
    assert(x.skip(1)[0] == x[1] && y.skip(1)[0] == y[1]);
    assert(x.skip(1).skip(1)[0] == x[2] && y.skip(1).skip(1)[0] == y[2]);
    assert(bytes_before(x, y) <==> parts_before(a, b));
    assert(bytes_before(y, x) <==> parts_before(b, a));
    if !parts_before(a, b) && !parts_before(b, a) {
        decision_id_is_its_parts(a, b);
    }
}

/// The hexadecimal text of an id parses to the id.
pub proof fn decision_id_hex_round_trip(id: DecisionId)
    ensures
        DecisionId::parsed(encode_utf8(hex_text(id.0@))) == Ok::<Seq<u8>, Error>(id.0@),
{
    hex_round_trip(id.0@);
    let text = encode_utf8(hex_text(id.0@));
    assert(id.0@.len() == 3);
    let back = hex_bytes(text);
    assert(back[0] == id.0@[0]);
    assert(back[1] == id.0@[1]);
    assert(back[2] == id.0@[2]);
    assert(hex_value(text[0]) is Some);
    assert(hex_value(text[1]) is Some);
    assert(hex_value(text[2]) is Some);
    assert(hex_value(text[3]) is Some);
    assert(hex_value(text[4]) is Some);
    assert(hex_value(text[5]) is Some);
    assert(seq![
        chunk_value(text[0], text[1])->0 as u8,
        chunk_value(text[2], text[3])->0 as u8,
        chunk_value(text[4], text[5])->0 as u8,
    ] =~= id.0@);
}

/// What the answers to a decision look like.
#[derive(Debug, PartialEq, Eq)]
pub enum DecisionType {
    Binary,
    Scaled { min: Real, max: Real, increment: Real },
    Category { options: Box<[String]> },
}

impl Clone for DecisionType {
    fn clone(&self) -> (r: Self)
        ensures
            r == *self,
    {
        self.duplicate()
    }
}

impl Duplicate for DecisionType {
    fn duplicate(&self) -> (r: Self) {
        match self {
            DecisionType::Binary => DecisionType::Binary,
            DecisionType::Scaled { min, max, increment } => DecisionType::Scaled {
                min: *min,
                max: *max,
                increment: *increment,
            },
            DecisionType::Category { options } => DecisionType::Category {
                options: boxed_duplicate(options),
            },
        }
    }
}

#[derive(Debug, PartialEq, Eq)]
pub struct Decision {
    pub market_maker_pubkey_hash: [u8; 20],
    pub decision_type: DecisionType,
    pub header: String,
    pub description: String,
    pub option_0_label: Option<String>,
    pub option_1_label: Option<String>,
    pub tags: Box<[String]>,
}

impl Clone for Decision {
    fn clone(&self) -> (r: Self)
        ensures
            r == *self,
    {
        self.duplicate()
    }
}

impl Duplicate for Decision {
    fn duplicate(&self) -> (r: Self) {
        Decision {
            market_maker_pubkey_hash: self.market_maker_pubkey_hash,
            decision_type: self.decision_type.duplicate(),
            header: self.header.clone(),
            description: self.description.clone(),
            option_0_label: self.option_0_label.duplicate(),
            option_1_label: self.option_1_label.duplicate(),
            tags: boxed_duplicate(&self.tags),
        }
    }
}

/// The first tag, from a place on, of more than fifty bytes.
pub open spec fn first_long(tags: Seq<String>, i: int) -> Option<int>
    decreases tags.len() - i,
{
    if i >= tags.len() {
        None
    } else if text_len(tags[i]) > 50 {
        Some(i)
    } else {
        first_long(tags, i + 1)
    }
}

/// The length of a text in bytes.
pub open spec fn text_len(s: String) -> nat {
    encode_utf8(s@).len()
}

pub fn byte_len(s: &String) -> (r: usize)
    ensures
        r == text_len(*s),
{
    s.as_str().as_bytes().len()
}

pub open spec fn zero() -> Real {
    Real { bits: 0 }
}

impl Decision {
    /// Why the parts make no decision. `range_is_aligned` says whether the
    /// range of a scaled decision is a whole number of increments.
    pub open spec fn problem(
        decision_type: DecisionType,
        header: String,
        description: String,
        tags: Seq<String>,
        range_is_aligned: bool,
    ) -> Option<Error> {
        if text_len(header) > 100 {
            Some(
                Error::InvalidDecisionId {
                    reason: Reason::Text("Header must be 100 bytes or less"),
                },
            )
        } else if text_len(description) > 2000 {
            Some(
                Error::InvalidDecisionId {
                    reason: Reason::Text("Description must be 2000 bytes or less"),
                },
            )
        } else if tags.len() > 10 {
            Some(Error::InvalidDecisionId { reason: Reason::Text("Maximum 10 tags allowed") })
        } else if first_long(tags, 0) is Some {
            Some(
                Error::InvalidDecisionId {
                    reason: Reason::TagTooLong { place: first_long(tags, 0)->0 as usize },
                },
            )
        } else {
            match decision_type {
                DecisionType::Binary => None,
                DecisionType::Scaled { min, max, increment } => {
                    if !(min.finite() && max.finite() && increment.finite() && min.less(max)
                        && zero().less(increment)) {
                        Some(
                            Error::InvalidScaled {
                                reason: Reason::InvalidBounds { min, max, increment },
                            },
                        )
                    } else if !range_is_aligned {
                        Some(
                            Error::InvalidScaled {
                                reason: Reason::RangeNotAligned { min, max, increment },
                            },
                        )
                    } else {
                        None
                    }
                },
                DecisionType::Category { options } => {
                    if options@.len() < 2 {
                        Some(
                            Error::InvalidDecisionId {
                                reason: Reason::Text("Category decisions require at least 2 options"),
                            },
                        )
                    } else {
                        None
                    }
                },
            }
        }
    }

    pub fn new(
        market_maker_pubkey_hash: [u8; 20],
        decision_type: DecisionType,
        header: String,
        description: String,
        option_0_label: Option<String>,
        option_1_label: Option<String>,
        tags: Box<[String]>,
        range_is_aligned: bool,
    ) -> (r: Result<Self, Error>)
        ensures
            match r {
                Ok(d) => {
                    &&& Decision::problem(
                        decision_type,
                        header,
                        description,
                        tags@,
                        range_is_aligned,
                    ) is None
                    &&& d == Decision {
                        market_maker_pubkey_hash,
                        decision_type,
                        header,
                        description,
                        option_0_label,
                        option_1_label,
                        tags,
                    }
                },
                Err(e) => Decision::problem(
                    decision_type,
                    header,
                    description,
                    tags@,
                    range_is_aligned,
                ) == Some(e),
            },
    {
        if byte_len(&header) > 100 {
            return Err(
                Error::InvalidDecisionId {
                    reason: Reason::Text("Header must be 100 bytes or less"),
                },
            );
        }
        if byte_len(&description) > 2000 {
            return Err(
                Error::InvalidDecisionId {
                    reason: Reason::Text("Description must be 2000 bytes or less"),
                },
            );
        }
        if tags.len() > 10 {
            return Err(
                Error::InvalidDecisionId { reason: Reason::Text("Maximum 10 tags allowed") },
            );
        }
        let mut i: usize = 0;
        while i < tags.len()
            invariant
                i <= tags@.len(),
                first_long(tags@, 0) == first_long(tags@, i as int),
                text_len(header) <= 100,
                text_len(description) <= 2000,
                tags@.len() <= 10,
            decreases tags@.len() - i,
        {
            if byte_len(&tags[i]) > 50 {
                return Err(Error::InvalidDecisionId { reason: Reason::TagTooLong { place: i } });
            }
            i += 1;
        }
        match &decision_type {
            DecisionType::Binary => {},
            DecisionType::Scaled { min, max, increment } => {
                if !(min.is_finite() && max.is_finite() && increment.is_finite() && min.is_less(
                    *max,
                ) && (Real { bits: 0 }).is_less(*increment)) {
                    return Err(
                        Error::InvalidScaled {
                            reason: Reason::InvalidBounds {
                                min: *min,
                                max: *max,
                                increment: *increment,
                            },
                        },
                    );
                }
                if !range_is_aligned {
                    return Err(
                        Error::InvalidScaled {
                            reason: Reason::RangeNotAligned {
                                min: *min,
                                max: *max,
                                increment: *increment,
                            },
                        },
                    );
                }
            },
            DecisionType::Category { options } => {
                if options.len() < 2 {
                    return Err(
                        Error::InvalidDecisionId {
                            reason: Reason::Text("Category decisions require at least 2 options"),
                        },
                    );
                }
            },
        }
        Ok(
            Decision {
                market_maker_pubkey_hash,
                decision_type,
                header,
                description,
                option_0_label,
                option_1_label,
                tags,
            },
        )
    }

    pub fn is_scaled(&self) -> (r: bool)
        ensures
            r == (self.decision_type is Scaled),
    {
        matches!(self.decision_type, DecisionType::Scaled { .. })
    }

    pub fn is_categorical(&self) -> (r: bool)
        ensures
            r == (self.decision_type is Category),
    {
        matches!(self.decision_type, DecisionType::Category { .. })
    }

    pub fn option_count(&self) -> (r: Option<usize>)
        ensures
            match self.decision_type {
                DecisionType::Category { options } => r is Some && r->0 == options@.len(),
                _ => r is None,
            },
    {
        match &self.decision_type {
            DecisionType::Category { options } => Some(options.len()),
            _ => None,
        }
    }

    /// The option that stands for no conclusion: the one after the last.
    pub fn inconclusive_index(&self) -> (r: Option<u16>)
        ensures
            match self.decision_type {
                DecisionType::Category { options } => r == Some(
                    (options@.len() % 65536) as u16,
                ),
                _ => r is None,
            },
    {
        match self.option_count() {
            Some(n) => Some((n % 65536) as u16),
            None => None,
        }
    }

    pub fn get_category_labels(&self) -> (r: Option<&Box<[String]>>)
        ensures
            match self.decision_type {
                DecisionType::Category { options } => r == Some(&options),
                _ => r is None,
            },
    {
        match &self.decision_type {
            DecisionType::Category { options } => Some(options),
            _ => None,
        }
    }

    pub fn scale_min(&self) -> (r: Option<Real>)
        ensures
            match self.decision_type {
                DecisionType::Scaled { min, max, increment } => r == Some(min),
                _ => r is None,
            },
    {
        match &self.decision_type {
            DecisionType::Scaled { min, .. } => Some(*min),
            _ => None,
        }
    }

    pub fn scale_max(&self) -> (r: Option<Real>)
        ensures
            match self.decision_type {
                DecisionType::Scaled { min, max, increment } => r == Some(max),
                _ => r is None,
            },
    {
        match &self.decision_type {
            DecisionType::Scaled { max, .. } => Some(*max),
            _ => None,
        }
    }

    /// The hash of the encoding of a decision.
    pub fn id(&self) -> (r: [u8; 32])
        requires
            self.encodable(),
        ensures
            r@ == blake3_hash(self.encoding()),
    {
        let mut buf: Vec<u8> = Vec::new();
        let _ = self.encode(&mut buf);
        assert(buf@ =~= self.encoding());
        hash(buf.as_slice())
    }

    /// The labels of the two answers, by default `No` and `Yes`.
    pub fn get_binary_labels(&self) -> (r: (String, String))
        ensures
            r.0@ == (match self.option_0_label {
                Some(label) => label@,
                None => "No"@,
            }),
            r.1@ == (match self.option_1_label {
                Some(label) => label@,
                None => "Yes"@,
            }),
    {
        let label0 = match &self.option_0_label {
            Some(label) => label.clone(),
            None => String::from_str("No"),
        };
        let label1 = match &self.option_1_label {
            Some(label) => label.clone(),
            None => String::from_str("Yes"),
        };
        (label0, label1)
    }

    /// Why `value` is no vote on the decision. `step_is_aligned` says whether
    /// it is a whole number of increments above the least value of a scale,
    /// and `option` which whole number it is, if it is one.
    pub open spec fn vote_problem(
        self,
        value: Real,
        step_is_aligned: bool,
        option: Option<u64>,
    ) -> Option<Error> {
        if value.is_nan() {
            None
        } else {
            match self.decision_type {
                DecisionType::Scaled { min, max, increment } => {
                    if value.less(min) || max.less(value) {
                        Some(
                            Error::InvalidVoteValue {
                                reason: Reason::VoteOutsideRange { value, min, max },
                            },
                        )
                    } else if !step_is_aligned {
                        Some(
                            Error::InvalidVoteValue {
                                reason: Reason::VoteNotAligned { value, min, increment },
                            },
                        )
                    } else {
                        None
                    }
                },
                DecisionType::Binary => {
                    if value.less(zero()) || one().less(value) {
                        Some(
                            Error::InvalidVoteValue {
                                reason: Reason::BinaryVoteOutOfRange(value),
                            },
                        )
                    } else {
                        None
                    }
                },
                DecisionType::Category { options } => {
                    if option is None || option->0 > options@.len() {
                        Some(
                            Error::InvalidVoteValue {
                                reason: Reason::NotAnOption {
                                    value,
                                    options: options@.len() as usize,
                                },
                            },
                        )
                    } else {
                        None
                    }
                },
            }
        }
    }

    /// Whether `value` is a vote on the decision.
    pub fn check_vote_value(
        &self,
        value: Real,
        step_is_aligned: bool,
        option: Option<u64>,
    ) -> (r: Result<(), Error>)
        ensures
            match r {
                Ok(()) => self.vote_problem(value, step_is_aligned, option) is None,
                Err(e) => self.vote_problem(value, step_is_aligned, option) == Some(e),
            },
    {
        if value.is_nan() {
            return Ok(());
        }
        match &self.decision_type {
            DecisionType::Scaled { min, max, increment } => {
                if value.is_less(*min) || max.is_less(value) {
                    return Err(
                        Error::InvalidVoteValue {
                            reason: Reason::VoteOutsideRange { value, min: *min, max: *max },
                        },
                    );
                }
                if !step_is_aligned {
                    return Err(
                        Error::InvalidVoteValue {
                            reason: Reason::VoteNotAligned {
                                value,
                                min: *min,
                                increment: *increment,
                            },
                        },
                    );
                }
                Ok(())
            },
            DecisionType::Binary => {
                if value.is_less(Real { bits: 0 }) || (Real {
                    bits: 0x3ff0_0000_0000_0000,
                }).is_less(value) {
                    return Err(
                        Error::InvalidVoteValue {
                            reason: Reason::BinaryVoteOutOfRange(value),
                        },
                    );
                }
                Ok(())
            },
            DecisionType::Category { options } => {
                let valid = match option {
                    Some(n) => n <= options.len() as u64,
                    None => false,
                };
                if !valid {
                    return Err(
                        Error::InvalidVoteValue {
                            reason: Reason::NotAnOption { value, options: options.len() },
                        },
                    );
                }
                Ok(())
            },
        }
    }
}

pub open spec fn one() -> Real {
    Real { bits: 0x3ff0_0000_0000_0000 }
}

/// Where a decision stands.
#[derive(Clone, Copy, Debug, PartialEq, Eq, PartialOrd, Ord, Structural)]
pub enum DecisionState {
    Created,
    Claimed,
    Voting,
    Resolved,
    Invalid,
}

impl DecisionState {
    /// From `Claimed` to `Voting`, from `Voting` to `Resolved`, and from
    /// anywhere to `Invalid`.
    pub open spec fn may_become(self, next: DecisionState) -> bool {
        ||| self is Claimed && next is Voting
        ||| self is Voting && next is Resolved
        ||| next is Invalid
    }

    pub fn can_transition_to(&self, new_state: DecisionState) -> (r: bool)
        ensures
            r == self.may_become(new_state),
    {
        matches!(
            (self, new_state),
            (DecisionState::Claimed, DecisionState::Voting)
                | (DecisionState::Voting, DecisionState::Resolved)
                | (_, DecisionState::Invalid)
        )
    }

    pub fn allows_voting(&self) -> (r: bool)
        ensures
            r == (*self is Voting),
    {
        matches!(self, DecisionState::Voting)
    }

    pub fn has_consensus(&self) -> (r: bool)
        ensures
            r == (*self is Resolved),
    {
        matches!(self, DecisionState::Resolved)
    }
}

/// A state that a decision reached, the height at which it did, and the outcome
/// if it was resolved.
pub type HistoryEntry = (DecisionState, u32, Option<Real>);

/// The states that a decision went through.
#[derive(Debug, PartialEq)]
pub struct DecisionStateHistory {
    pub state_history: Vec<HistoryEntry>,
}

/// The state that the last entry gives.
pub open spec fn current_of(history: Seq<HistoryEntry>) -> DecisionState {
    if history.len() == 0 {
        DecisionState::Created
    } else {
        history.last().0
    }
}

/// The entries up to a height.
pub open spec fn up_to_height(history: Seq<HistoryEntry>, height: u32) -> Seq<HistoryEntry> {
    history.filter(|e: HistoryEntry| e.1 <= height)
}

/// Entry `i` is the first one with the state.
pub open spec fn first_with(history: Seq<HistoryEntry>, state: DecisionState, i: int) -> bool {
    &&& 0 <= i < history.len()
    &&& history[i].0 == state
    &&& forall|j: int| 0 <= j < i ==> (#[trigger] history[j]).0 != state
}

pub open spec fn never_reached(history: Seq<HistoryEntry>, state: DecisionState) -> bool {
    forall|j: int| 0 <= j < history.len() ==> (#[trigger] history[j]).0 != state
}

impl View for DecisionStateHistory {
    type V = Seq<HistoryEntry>;

    open spec fn view(&self) -> Seq<HistoryEntry> {
        self.state_history@
    }
}

impl DecisionStateHistory {
    pub fn new_claimed(height: u32) -> (r: Self)
        ensures
            r@ == seq![(DecisionState::Claimed, height, None::<Real>)],
    {
        let mut state_history: Vec<HistoryEntry> = Vec::new();
        state_history.push((DecisionState::Claimed, height, None));
        assert(state_history@ =~= seq![(DecisionState::Claimed, height, None::<Real>)]);
        DecisionStateHistory { state_history }
    }

    pub fn new(initial_height: u32) -> (r: Self)
        ensures
            r@ == seq![(DecisionState::Claimed, initial_height, None::<Real>)],
    {
        DecisionStateHistory::new_claimed(initial_height)
    }

    pub fn current_state(&self) -> (r: DecisionState)
        ensures
            r == current_of(self@),
    {
        let n: usize = self.state_history.len();
        if n == 0 {
            DecisionState::Created
        } else {
            self.state_history[n - 1].0
        }
    }

    pub fn transition_to_voting(&mut self, height: u32) -> (r: Result<(), Error>)
        ensures
            if current_of(old(self)@).may_become(DecisionState::Voting) {
                &&& r is Ok
                &&& final(self)@ == old(self)@.push((DecisionState::Voting, height, None))
            } else {
                &&& r == Err::<(), Error>(
                    Error::InvalidDecisionState {
                        reason: Reason::CannotStartVoting(current_of(old(self)@)),
                    },
                )
                &&& *final(self) == *old(self)
            },
    {
        let current = self.current_state();
        if !current.can_transition_to(DecisionState::Voting) {
            return Err(Error::InvalidDecisionState { reason: Reason::CannotStartVoting(current) });
        }
        self.state_history.push((DecisionState::Voting, height, None));
        Ok(())
    }

    pub fn transition_to_resolved(
        &mut self,
        consensus_outcome: Real,
        height: u32,
    ) -> (r: Result<(), Error>)
        ensures
            if !current_of(old(self)@).may_become(DecisionState::Resolved) {
                &&& r == Err::<(), Error>(
                    Error::InvalidDecisionState {
                        reason: Reason::CannotResolve(current_of(old(self)@)),
                    },
                )
                &&& *final(self) == *old(self)
            } else if consensus_outcome.less(minus_one()) {
                &&& r == Err::<(), Error>(
                    Error::InvalidDecisionState {
                        reason: Reason::InvalidOutcome(consensus_outcome),
                    },
                )
                &&& *final(self) == *old(self)
            } else {
                &&& r is Ok
                &&& final(self)@ == old(self)@.push(
                    (DecisionState::Resolved, height, Some(consensus_outcome)),
                )
            },
    {
        let current = self.current_state();
        if !current.can_transition_to(DecisionState::Resolved) {
            return Err(Error::InvalidDecisionState { reason: Reason::CannotResolve(current) });
        }
        if consensus_outcome.is_less(Real { bits: 0xbff0_0000_0000_0000 }) {
            return Err(
                Error::InvalidDecisionState { reason: Reason::InvalidOutcome(consensus_outcome) },
            );
        }
        self.state_history.push((DecisionState::Resolved, height, Some(consensus_outcome)));
        Ok(())
    }

    pub fn can_accept_votes(&self) -> (r: bool)
        ensures
            r == (current_of(self@) is Voting),
    {
        self.current_state() == DecisionState::Voting
    }

    pub fn has_consensus(&self) -> (r: bool)
        ensures
            r == (current_of(self@) is Resolved),
    {
        self.current_state().has_consensus()
    }

    fn first_index(&self, state: DecisionState) -> (r: Option<usize>)
        ensures
            match r {
                Some(i) => first_with(self@, state, i as int),
                None => never_reached(self@, state),
            },
    {
        let mut i: usize = 0;
        while i < self.state_history.len()
            invariant
                i <= self@.len(),
                forall|j: int| 0 <= j < i ==> (#[trigger] self@[j]).0 != state,
            decreases self@.len() - i,
        {
            if self.state_history[i].0 == state {
                return Some(i);
            }
            i += 1;
        }
        None
    }

    /// The outcome with which the decision was first resolved.
    pub fn consensus_outcome(&self) -> (r: Option<Real>)
        ensures
            never_reached(self@, DecisionState::Resolved) ==> r is None,
            forall|i: int| #[trigger]
                first_with(self@, DecisionState::Resolved, i) ==> r == self@[i].2,
    {
        match self.first_index(DecisionState::Resolved) {
            Some(i) => self.state_history[i].2,
            None => None,
        }
    }

    pub fn has_reached_state(&self, state: DecisionState) -> (r: bool)
        ensures
            r == !never_reached(self@, state),
    {
        self.first_index(state).is_some()
    }

    /// The state that the last entry at or below the height gives.
    pub fn state_at_height(&self, height: u32) -> (r: DecisionState)
        ensures
            r == current_of(up_to_height(self@, height)),
    {
        let n: usize = self.state_history.len();
        let mut i: usize = n;
        assert(self@.subrange(0, n as int) =~= self@);
        while i > 0
            invariant
                i <= n,
                n == self@.len(),
                up_to_height(self@, height) == up_to_height(self@.subrange(0, i as int), height),
            decreases i,
        {
            i -= 1;
            proof {
                let head = self@.subrange(0, i + 1);
                assert(head.drop_last() =~= self@.subrange(0, i as int));
                reveal(Seq::filter);
            }
            if self.state_history[i].1 <= height {
                return self.state_history[i].0;
            }
        }
        proof {
            reveal(Seq::filter);
        }
        DecisionState::Created
    }

    /// Forgets what happened above the height.
    pub fn rollback_to_height(&mut self, height: u32)
        ensures
            final(self)@ == up_to_height(old(self)@, height),
    {
        let mut kept: Vec<HistoryEntry> = Vec::new();
        let mut i: usize = 0;
        proof {
            reveal(Seq::filter);
            assert(up_to_height(self@.subrange(0, 0), height) =~= Seq::empty());
        }
        while i < self.state_history.len()
            invariant
                i <= self@.len(),
                self@ == old(self)@,
                kept@ == up_to_height(self@.subrange(0, i as int), height),
            decreases self@.len() - i,
        {
            proof {
                let head = self@.subrange(0, i + 1);
                assert(head.drop_last() =~= self@.subrange(0, i as int));
                reveal(Seq::filter);
            }
            if self.state_history[i].1 <= height {
                kept.push(self.state_history[i]);
            }
            i += 1;
        }
        assert(self@.subrange(0, i as int) =~= self@);
        self.state_history = kept;
    }

    /// The height at which the decision first reached a state.
    pub fn get_state_height(&self, state: DecisionState) -> (r: Option<u32>)
        ensures
            never_reached(self@, state) ==> r is None,
            forall|i: int| #[trigger] first_with(self@, state, i) ==> r == Some(self@[i].1),
    {
        match self.first_index(state) {
            Some(i) => Some(self.state_history[i].1),
            None => None,
        }
    }
}

pub open spec fn minus_one() -> Real {
    Real { bits: 0xbff0_0000_0000_0000 }
}

/// A rollback undoes what happened above the height: an entry that is added
/// above the height does not outlive it.
pub proof fn rollback_undoes_later_entries(
    history: Seq<HistoryEntry>,
    entry: HistoryEntry,
    height: u32,
)
    requires
        entry.1 > height,
    ensures
        up_to_height(history.push(entry), height) == up_to_height(history, height),
{
    reveal(Seq::filter);
    assert(history.push(entry).drop_last() =~= history);
}

/// A rollback to a height above which nothing happened changes nothing.
pub proof fn rollback_keeps_earlier_entries(history: Seq<HistoryEntry>, height: u32)
    requires
        forall|i: int| 0 <= i < history.len() ==> (#[trigger] history[i]).1 <= height,
    ensures
        up_to_height(history, height) == history,
    decreases history.len(),
{
    reveal(Seq::filter);
    if history.len() > 0 {
        let head = history.drop_last();
        assert forall|i: int| 0 <= i < head.len() implies (#[trigger] head[i]).1 <= height by {
            assert(head[i] == history[i]);
        }
        rollback_keeps_earlier_entries(head, height);
        assert(history.last().1 <= height);
        assert(up_to_height(history, height) =~= history);
    } else {
        assert(up_to_height(history, height) =~= history);
    }
}

/// A decision that was claimed in a period.
#[derive(Debug, PartialEq, Eq)]
pub struct DecisionEntry {
    pub decision_id: DecisionId,
    pub decision: Option<Decision>,
    /// The transaction that claimed the decision.
    pub claiming_txid: Txid,
}

impl Clone for DecisionEntry {
    fn clone(&self) -> (r: Self)
        ensures
            r == *self,
    {
        self.duplicate()
    }
}

impl Duplicate for DecisionEntry {
    fn duplicate(&self) -> (r: Self) {
        DecisionEntry {
            decision_id: self.decision_id,
            decision: self.decision.duplicate(),
            claiming_txid: self.claiming_txid,
        }
    }
}

pub const FUTURE_PERIODS: u32 = 20;

pub const INITIAL_DECISIONS_PER_PERIOD: u64 = 500;

/// How long a period is: a number of blocks, or of seconds.
#[derive(Clone, Copy, Debug, PartialEq, Eq, Structural)]
pub struct DecisionConfig {
    pub is_blocks: bool,
    pub quantity: u32,
}

impl Default for DecisionConfig {
    fn default() -> (r: Self)
        ensures
            r == (DecisionConfig { is_blocks: false, quantity: 86400 }),
    {
        DecisionConfig { is_blocks: false, quantity: 86400 }
    }
}

impl DecisionConfig {
    pub fn production(seconds_per_quarter: u32) -> (r: Self)
        ensures
            r == (DecisionConfig { is_blocks: false, quantity: seconds_per_quarter }),
    {
        DecisionConfig { is_blocks: false, quantity: seconds_per_quarter }
    }

    pub fn testing(blocks_per_period: u32) -> (r: Self)
        requires
            blocks_per_period != 0,
        ensures
            r == (DecisionConfig { is_blocks: true, quantity: blocks_per_period }),
    {
        DecisionConfig { is_blocks: true, quantity: blocks_per_period }
    }

    pub fn is_blocks_mode(&self) -> (r: bool)
        ensures
            r == self.is_blocks,
    {
        self.is_blocks
    }

    pub fn blocks_per_period(&self) -> (r: Option<u32>)
        ensures
            r == if self.is_blocks {
                Some(self.quantity)
            } else {
                None
            },
    {
        if self.is_blocks {
            Some(self.quantity)
        } else {
            None
        }
    }

    pub fn seconds_per_period(&self) -> (r: Option<u64>)
        ensures
            r == if self.is_blocks {
                None
            } else {
                Some(self.quantity as u64)
            },
    {
        if !self.is_blocks {
            Some(self.quantity as u64)
        } else {
            None
        }
    }
}

/// The name of a period: `Genesis`, or the quarter and the year.
pub open spec fn period_name(period: u32) -> Seq<char> {
    if period == 0 {
        "Genesis"@
    } else {
        "Q"@ + decimal(((period - 1) % 4 + 1) as nat) + " Y"@ + decimal(
            (2009 + (period - 1) / 4) as nat,
        )
    }
}

pub fn period_to_name(period: u32) -> (r: String)
    ensures
        r@ == period_name(period),
{
    if period == 0 {
        return String::from_str("Genesis");
    }
    let year: u32 = 2009 + (period - 1) / 4;
    let quarter: u32 = (period - 1) % 4 + 1;
    let mut name = String::from_str("Q");
    push_decimal(&mut name, quarter);
    name.append(" Y");
    push_decimal(&mut name, year);
    name
}

pub fn period_to_string(period_idx: u32, config: &DecisionConfig) -> (r: String)
    ensures
        r@ == if config.is_blocks {
            "Testing Period "@ + decimal(period_idx as nat)
        } else {
            period_name(period_idx)
        },
{
    if config.is_blocks {
        let mut name = String::from_str("Testing Period ");
        push_decimal(&mut name, period_idx);
        name
    } else {
        period_to_name(period_idx)
    }
}

} // verus!
