//! What holds of numbers and addresses written out.

use vstd::prelude::*;

use crate::hex::{decimal, hex_char, hex_value, without_prefix};
use crate::state::decisions::DecisionId;
use crate::state::Error;
use crate::types::net::{
    last_colon, number, port_of, seed_address_of, url_host, HostView, ParseSeedAddressError,
};

verus! {

/// A digit stands for its value, in either case.
pub proof fn digits_have_values(v: int)
    requires
        0 <= v < 16,
    ensures
        v < 10 ==> hex_value((48 + v) as u8) == Some(v),
        v >= 10 ==> hex_value((97 + v - 10) as u8) == Some(v),
        v >= 10 ==> hex_value((65 + v - 10) as u8) == Some(v),
        hex_value(hex_char(v) as u8) == Some(v),
{
}

/// Nothing else is a digit.
pub proof fn other_characters_are_no_digits(c: u8)
    ensures
        hex_value(c) is Some <==> 48 <= c <= 57 || 65 <= c <= 70 || 97 <= c <= 102,
        hex_value(c) is Some ==> 0 <= hex_value(c)->0 < 16,
{
}

/// A prefix of `0x` is left out, and nothing else is.
pub proof fn prefixes_are_left_out(text: Seq<u8>)
    requires
        text.len() >= 2,
    ensures
        text[0] == 0x30 && (text[1] == 0x78 || text[1] == 0x58) ==> without_prefix(text)
            == text.subrange(2, text.len() as int),
        !(text[0] == 0x30 && (text[1] == 0x78 || text[1] == 0x58)) ==> without_prefix(text) == text,
{
    assert(text.skip(2) =~= text.subrange(2, text.len() as int));
}

/// The digits of a number stand for the number.
pub proof fn numbers_read_as_they_are_written(n: nat)
    ensures
        number(decimal(n)) == Some(n as int),
    decreases n,
{
    let text = decimal(n);
    if n >= 10 {
        numbers_read_as_they_are_written(n / 10);
        assert(text.drop_last() =~= decimal(n / 10));
    } else {
        assert(text.drop_last() =~= Seq::<char>::empty());
        assert(number(text.drop_last()) == Some(0int));
    }
}

proof fn lemma_no_plus(n: nat)
    ensures
        decimal(n).len() > 0,
        decimal(n)[0] != '+',
    decreases n,
{
    if n >= 10 {
        lemma_no_plus(n / 10);
    }
}

/// A port reads as it is written, with or without a plus sign.
pub proof fn ports_read_as_they_are_written(n: nat)
    ensures
        n <= 65535 ==> port_of(decimal(n)) == Some(n as u16),
        n <= 65535 ==> port_of(seq!['+'] + decimal(n)) == Some(n as u16),
        n > 65535 ==> port_of(decimal(n)) is None,
{
    numbers_read_as_they_are_written(n);
    lemma_no_plus(n);
    assert((seq!['+'] + decimal(n)).skip(1) =~= decimal(n));
}

proof fn lemma_last_colon(host: Seq<char>, port: Seq<char>)
    requires
        forall|i: int| 0 <= i < port.len() ==> #[trigger] port[i] != ':',
    ensures
        last_colon(host + seq![':'] + port) == host.len(),
    decreases port.len(),
{
    let text = host + seq![':'] + port;
    if port.len() == 0 {
        assert(text.last() == ':');
    } else {
        let front = port.drop_last();
        assert forall|i: int| 0 <= i < front.len() implies #[trigger] front[i] != ':' by {
            assert(front[i] == port[i]);
        }
        lemma_last_colon(host, front);
        assert(text.last() == port[port.len() - 1]);
        assert(text.drop_last() =~= host + seq![':'] + front);
    }
}

/// What stands behind the last colon is the port, and what stands before it the host.
pub proof fn hosts_stand_before_their_port(host: Seq<char>, port: Seq<char>)
    requires
        forall|i: int| 0 <= i < port.len() ==> #[trigger] port[i] != ':',
        url_host(host) is Some,
        port_of(port) is Some,
    ensures
        seed_address_of(host + seq![':'] + port) == Ok::<(HostView, u16), ParseSeedAddressError>(
            (url_host(host)->0, port_of(port)->0),
        ),
{
    let text = host + seq![':'] + port;
    lemma_last_colon(host, port);
    assert(text.subrange(0, host.len() as int) =~= host);
    assert(text.subrange(host.len() as int + 1, text.len() as int) =~= port);
}

proof fn lemma_without_colon(text: Seq<char>)
    requires
        forall|i: int| 0 <= i < text.len() ==> #[trigger] text[i] != ':',
    ensures
        last_colon(text) == -1,
    decreases text.len(),
{
    if text.len() > 0 {
        let front = text.drop_last();
        assert forall|i: int| 0 <= i < front.len() implies #[trigger] front[i] != ':' by {
            assert(front[i] == text[i]);
        }
        assert(text.last() == text[text.len() - 1]);
        lemma_without_colon(front);
    }
}

/// A host without a port has port 4013.
pub proof fn hosts_have_a_default_port(host: Seq<char>)
    requires
        forall|i: int| 0 <= i < host.len() ==> #[trigger] host[i] != ':',
    ensures
        url_host(host) is Some ==> seed_address_of(host) == Ok::<
            (HostView, u16),
            ParseSeedAddressError,
        >((url_host(host)->0, 4013u16)),
        url_host(host) is None ==> seed_address_of(host) is Err,
{
    lemma_without_colon(host);
}

/// The id of a decision reads as it is written: two digits for each of its three bytes.
pub proof fn ids_read_as_they_are_written(a: u8, b: u8, c: u8, text: Seq<u8>)
    requires
        text.len() == 6,
        forall|k: int|
            0 <= k < 6 ==> #[trigger] text[k] == hex_char(
                if k % 2 == 0 {
                    seq![a, b, c][k / 2] as int / 16
                } else {
                    seq![a, b, c][k / 2] as int % 16
                },
            ) as u8,
    ensures
        DecisionId::parsed(text) == Ok::<Seq<u8>, Error>(seq![a, b, c]),
{
    let bytes = seq![a, b, c];
    assert(text[0] == hex_char(bytes[0] as int / 16) as u8);
    assert(text[1] == hex_char(bytes[0] as int % 16) as u8);
    assert(text[2] == hex_char(bytes[1] as int / 16) as u8);
    assert(text[3] == hex_char(bytes[1] as int % 16) as u8);
    assert(text[4] == hex_char(bytes[2] as int / 16) as u8);
    assert(text[5] == hex_char(bytes[2] as int % 16) as u8);
    digits_have_values(a as int / 16);
    digits_have_values(a as int % 16);
    digits_have_values(b as int / 16);
    digits_have_values(b as int % 16);
    digits_have_values(c as int / 16);
    digits_have_values(c as int % 16);
}

/// A text of another length, or with something in it that is neither a digit nor a plus
/// sign, is no id.
pub proof fn other_texts_are_no_ids(text: Seq<u8>, k: int)
    requires
        0 <= k < text.len(),
    ensures
        text.len() != 6 ==> DecisionId::parsed(text) is Err,
        hex_value(text[k]) is None && text[k] != 0x2b ==> DecisionId::parsed(text) is Err,
{
}

/// The top bit of an id says whether its decision is a standard one, the other bits of
/// its first byte are the period, and the other two bytes are the place in it.
pub proof fn ids_hold_their_parts(id: DecisionId)
    ensures
        id.standard() <==> id.0[0] >= 128,
        id.standard() ==> id.period() == id.0[0] - 128,
        !id.standard() ==> id.period() == id.0[0],
        id.index() == id.0[1] * 256 + id.0[2],
{
}

} // verus!
