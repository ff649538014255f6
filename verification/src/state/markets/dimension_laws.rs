//! What holds of the text of a market's dimensions.

use vstd::prelude::*;

use crate::bytes::lemma_array_equal;
use crate::hex::{hex_bytes, hex_char, hex_text, hex_value, without_prefix};
use crate::state::decisions::DecisionId;
use crate::state::markets::types::{
    after_bracket, after_name, after_separators, dimensions_from, dimensions_of, id_with,
    is_space, named_decision, trim_end, trim_start, trimmed, DimensionSpec,
};

verus! {

/// A dimension in writing: the id of its decision in hexadecimal, in brackets of
/// its own where it is categorical.
pub open spec fn dimension_text(spec: DimensionSpec) -> Seq<char> {
    match spec {
        DimensionSpec::Single(id) => hex_text(id.0@),
        DimensionSpec::Categorical(id) => seq!['['] + hex_text(id.0@) + seq![']'],
    }
}

/// Dimensions in writing, with commas between them.
pub open spec fn listed_text(specs: Seq<DimensionSpec>) -> Seq<char>
    decreases specs.len(), 0int,
{
    if specs.len() == 0 {
        Seq::empty()
    } else {
        dimension_text(specs[0]) + rest_text(specs.skip(1))
    }
}

/// What is written after a dimension: a comma and the others, if there are any.
pub open spec fn rest_text(specs: Seq<DimensionSpec>) -> Seq<char>
    decreases specs.len(), 1int,
{
    if specs.len() == 0 {
        Seq::empty()
    } else {
        seq![','] + listed_text(specs)
    }
}

/// The list of a market's dimensions in writing.
pub open spec fn dimensions_text(specs: Seq<DimensionSpec>) -> Seq<char> {
    seq!['['] + listed_text(specs) + seq![']']
}

/// A lower-case hexadecimal digit.
spec fn is_digit(c: char) -> bool {
    48 <= c as u32 <= 57 || 97 <= c as u32 <= 102
}

proof fn lemma_digits(id: DecisionId)
    ensures
        hex_text(id.0@).len() == 6,
        forall|i: int| 0 <= i < 6 ==> is_digit(#[trigger] hex_text(id.0@)[i]),
        forall|c: char| #[trigger] is_digit(c) ==> !is_space(c) && c != ',' && c != '[' && c != ']',
{
    let text = hex_text(id.0@);
    assert forall|i: int| 0 <= i < 6 implies is_digit(#[trigger] text[i]) by {
        let b = id.0@[i / 2] as int;
        assert(0 <= b / 16 < 16);
        assert(0 <= b % 16 < 16);
    }
}

proof fn lemma_named(id: DecisionId)
    ensures
        named_decision(hex_text(id.0@)) == Some(id),
{
    lemma_digits(id);
    let text = hex_text(id.0@);
    let bytes = Seq::new(text.len(), |i: int| text[i] as u8);
    assert(is_digit(text[1]));
    assert(bytes[1] == text[1] as u8);
    assert(without_prefix(bytes) == bytes);
    assert forall|i: int| 0 <= i < bytes.len() implies hex_value(#[trigger] bytes[i]) is Some by {
        assert(is_digit(text[i]));
    }
    assert forall|i: int| 0 <= i < text.len() implies (#[trigger] text[i] as u32) < 128 by {
        assert(is_digit(text[i]));
    }
    let back = hex_bytes(bytes);
    assert forall|i: int| 0 <= i < 3 implies #[trigger] back[i] == id.0@[i] by {
        let b = id.0@[i] as int;
        assert(0 <= b / 16 < 16);
        assert(0 <= b % 16 < 16);
        assert((2 * i) / 2 == i && (2 * i) % 2 == 0);
        assert((2 * i + 1) / 2 == i && (2 * i + 1) % 2 == 1);
        assert(text[2 * i] == hex_char(b / 16));
        assert(text[2 * i + 1] == hex_char(b % 16));
        assert(bytes[2 * i] == text[2 * i] as u8);
        assert(bytes[2 * i + 1] == text[2 * i + 1] as u8);
        assert(hex_value(bytes[2 * i]) == Some(b / 16));
        assert(hex_value(bytes[2 * i + 1]) == Some(b % 16));
        assert(16 * (b / 16) + b % 16 == b);
    }
    assert(back =~= id.0@);
    assert(id_with(back).0@ == back);
    lemma_array_equal(id_with(back).0, id.0);
}

proof fn lemma_trimmed(text: Seq<char>)
    requires
        text.len() > 0,
        !is_space(text[0]),
        !is_space(text.last()),
    ensures
        trimmed(text) == text,
{
    assert(trim_start(text) == text);
    assert(trim_end(text) == text);
}

proof fn lemma_name_ends(text: Seq<char>, i: int, j: int)
    requires
        0 <= i <= j <= text.len(),
        forall|k: int| i <= k < j ==> #[trigger] text[k] != ',' && text[k] != '[',
        j < text.len() ==> text[j] == ',',
    ensures
        after_name(text, i) == j,
    decreases j - i,
{
    if i < j {
        lemma_name_ends(text, i + 1, j);
    }
}

proof fn lemma_bracket_closes(text: Seq<char>, i: int, j: int)
    requires
        0 <= i <= j < text.len(),
        forall|k: int| i <= k < j ==> #[trigger] text[k] != '[' && text[k] != ']',
        text[j] == ']',
    ensures
        after_bracket(text, i, 1) == Some(j + 1),
    decreases j - i,
{
    if i < j {
        lemma_bracket_closes(text, i + 1, j);
    } else {
        assert(after_bracket(text, j + 1, 0) == Some(j + 1));
    }
}

proof fn lemma_listed(text: Seq<char>, at: int, specs: Seq<DimensionSpec>)
    requires
        0 <= at <= text.len(),
        text.skip(at) == listed_text(specs) || text.skip(at) == rest_text(specs),
    ensures
        dimensions_from(text, at) == Some(specs),
    decreases specs.len(),
{
    let tail = text.skip(at);
    if specs.len() == 0 {
        assert(tail.len() == 0);
        assert(after_separators(text, at) == at);
        assert(Seq::<DimensionSpec>::empty() =~= specs);
    } else {
        let others = specs.skip(1);
        let d = dimension_text(specs[0]);
        let id = specs[0].id();
        let digits = hex_text(id.0@);
        lemma_digits(id);
        lemma_named(id);
        let listed = listed_text(specs);
        assert(listed == d + rest_text(others));
        let i = if tail == listed {
            at
        } else {
            at + 1
        };
        assert(tail.len() == text.len() - at);
        assert forall|k: int| 0 <= k < listed.len() implies text[i + k] == #[trigger] listed[k] by {
            if tail == listed {
                assert(tail[k] == text[at + k]);
            } else {
                assert(tail[k + 1] == text[at + k + 1]);
            }
        }
        assert(i + listed.len() == text.len());
        if i > at {
            assert(tail[0] == ',');
            assert(text[at] == ',');
        }
        let j = i + d.len();
        assert(text.skip(j) =~= rest_text(others)) by {
            assert forall|k: int| 0 <= k < rest_text(others).len() implies text.skip(j)[k]
                == #[trigger] rest_text(others)[k] by {
                assert(listed[d.len() + k] == rest_text(others)[k]);
            }
        }
        lemma_listed(text, j, others);
        if j < text.len() {
            assert(text[j] == text.skip(j)[0]);
            assert(text[j] == ',');
        }
        assert(listed[0] == d[0]);
        assert(text[i] == d[0]);
        match specs[0] {
            DimensionSpec::Single(_) => {
                assert(is_digit(digits[0]) && is_digit(digits[5]));
                assert(after_separators(text, i) == i);
                assert(after_separators(text, at) == i);
                assert forall|k: int| i <= k < j implies #[trigger] text[k] != ',' && text[k]
                    != '[' by {
                    assert(text[k] == listed[k - i] && listed[k - i] == digits[k - i]);
                    assert(is_digit(digits[k - i]));
                }
                lemma_name_ends(text, i, j);
                assert(text.subrange(i, j) =~= digits) by {
                    assert forall|k: int| 0 <= k < 6 implies text.subrange(i, j)[k]
                        == #[trigger] digits[k] by {
                        assert(listed[k] == digits[k]);
                    }
                }
                lemma_trimmed(digits);
            },
            DimensionSpec::Categorical(_) => {
                assert(is_digit(digits[0]) && is_digit(digits[5]));
                assert(d[0] == '[');
                assert(after_separators(text, i) == i);
                assert(after_separators(text, at) == i);
                assert(d.len() == 8);
                assert forall|k: int| i + 1 <= k < i + 7 implies text[k] == digits[k - i - 1]
                    && #[trigger] text[k] != '[' && text[k] != ']' by {
                    assert(text[k] == listed[k - i] && listed[k - i] == d[k - i]);
                    assert(is_digit(digits[k - i - 1]));
                }
                assert(d[7] == ']');
                assert(listed[7] == d[7]);
                assert(text[i + 7] == ']');
                lemma_bracket_closes(text, i + 1, i + 7);
                assert(text.subrange(i + 1, j - 1) =~= digits);
                lemma_trimmed(digits);
            },
        }
        assert(seq![specs[0]] + others =~= specs);
    }
}

/// The list of a market's dimensions, written down and parsed, comes back: as
/// many of them, in their order and of their kinds.
pub proof fn dimensions_round_trip(specs: Seq<DimensionSpec>)
    ensures
        dimensions_of(dimensions_text(specs)) == Some(specs),
{
    let text = dimensions_text(specs);
    lemma_trimmed(text);
    let inner = text.subrange(1, text.len() - 1);
    assert(inner =~= listed_text(specs));
    assert(inner.skip(0) =~= inner);
    lemma_listed(inner, 0, specs);
}

} // verus!
