//! Addresses of peers.

use vstd::prelude::*;
use vstd::string::StrSliceExecFns;

use crate::hex::{decimal, push_decimal};
use crate::types::Duplicate;

verus! {

/// The slot of this sidechain on the mainchain.
pub const THIS_SIDECHAIN: u8 = 13;

pub const DEFAULT_PORT: u16 = 4013;

/// A host name or an IP address.
#[derive(Debug, PartialEq, Eq, Hash)]
pub enum Host {
    Domain(String),
    Ipv4([u8; 4]),
    Ipv6([u8; 16]),
}

pub enum HostView {
    Domain(Seq<char>),
    Ipv4(Seq<u8>),
    Ipv6(Seq<u8>),
}

impl View for Host {
    type V = HostView;

    open spec fn view(&self) -> HostView {
        match self {
            Host::Domain(domain) => HostView::Domain(domain@),
            Host::Ipv4(octets) => HostView::Ipv4(octets@),
            Host::Ipv6(octets) => HostView::Ipv6(octets@),
        }
    }
}

/// The host that a text names, if it names one.
pub uninterp spec fn url_host(text: Seq<char>) -> Option<HostView>;

/// How an IPv6 address is written, in brackets.
pub uninterp spec fn url_ipv6_text(octets: Seq<u8>) -> Seq<char>;

/// `url::Host::parse`: the result is a function of the text alone.
#[verifier::external_body]
pub(crate) fn parse_host(text: &str) -> (r: Option<Host>)
    ensures
        match r {
            Some(host) => url_host(text@) == Some(host@),
            None => url_host(text@) is None,
        },
{
    match url::Host::parse(text) {
        Ok(url::Host::Domain(domain)) => Some(Host::Domain(domain)),
        Ok(url::Host::Ipv4(addr)) => Some(Host::Ipv4(addr.octets())),
        Ok(url::Host::Ipv6(addr)) => Some(Host::Ipv6(addr.octets())),
        Err(_) => None,
    }
}

/// `url::Host::to_string` of an IPv6 address: the result is a function of the
/// address alone.
#[verifier::external_body]
pub(crate) fn ipv6_text(octets: &[u8; 16]) -> (r: String)
    ensures
        r@ == url_ipv6_text(octets@),
{
    url::Host::<String>::Ipv6((*octets).into()).to_string()
}

#[derive(Clone, Copy, Debug, PartialEq, Eq, Hash)]
pub enum IpAddr {
    V4([u8; 4]),
    V6([u8; 16]),
}

#[derive(Clone, Copy, Debug, PartialEq, Eq, Hash)]
pub struct SocketAddr {
    pub ip: IpAddr,
    pub port: u16,
}

/// A text is no seed address: its port is no number up to 65535, or its host is
/// no host.
#[derive(Clone, Copy, Debug, PartialEq, Eq, Structural)]
pub enum ParseSeedAddressError {
    InvalidPort,
    InvalidHost,
}

/// Address of a seed peer: a host name or an IP address, and a port.
#[derive(Debug, PartialEq, Eq, Hash)]
pub struct SeedAddress {
    pub host: Host,
    pub port: u16,
}

/// The place of the last colon of a text, or -1.
pub open spec fn last_colon(text: Seq<char>) -> int
    decreases text.len(),
{
    if text.len() == 0 {
        -1
    } else if text.last() == ':' {
        text.len() - 1
    } else {
        last_colon(text.drop_last())
    }
}

/// The number that decimal digits stand for, if all characters are digits.
pub open spec fn number(text: Seq<char>) -> Option<int>
    decreases text.len(),
{
    if text.len() == 0 {
        Some(0)
    } else {
        match number(text.drop_last()) {
            None => None,
            Some(n) => if '0' <= text.last() <= '9' {
                Some(n * 10 + (text.last() as int - 48))
            } else {
                None
            },
        }
    }
}

/// The text without a plus sign in front.
pub open spec fn without_plus(text: Seq<char>) -> Seq<char> {
    if text.len() > 0 && text[0] == '+' {
        text.skip(1)
    } else {
        text
    }
}

/// The port that a text stands for: digits, which a plus sign may precede, of a
/// number up to 65535.
pub open spec fn port_of(text: Seq<char>) -> Option<u16> {
    let digits = without_plus(text);
    match number(digits) {
        None => None,
        Some(n) => if digits.len() > 0 && n <= 65535 {
            Some(n as u16)
        } else {
            None
        },
    }
}

/// The seed address that a text stands for: `host:port`, or `host` with the
/// default port.
pub open spec fn seed_address_of(text: Seq<char>) -> Result<
    (HostView, u16),
    ParseSeedAddressError,
> {
    let i = last_colon(text);
    if i < 0 {
        match url_host(text) {
            Some(host) => Ok((host, DEFAULT_PORT)),
            None => Err(ParseSeedAddressError::InvalidHost),
        }
    } else {
        match port_of(text.subrange(i + 1, text.len() as int)) {
            None => Err(ParseSeedAddressError::InvalidPort),
            Some(port) => match url_host(text.subrange(0, i)) {
                Some(host) => Ok((host, port)),
                None => Err(ParseSeedAddressError::InvalidHost),
            },
        }
    }
}

proof fn lemma_last_colon(text: Seq<char>, i: int)
    requires
        0 <= i <= text.len(),
        forall|j: int| i <= j < text.len() ==> text[j] != ':',
    ensures
        last_colon(text) == last_colon(text.subrange(0, i)),
    decreases text.len() - i,
{
    if i == text.len() {
        assert(text.subrange(0, i) =~= text);
    } else {
        assert(text.last() == text[text.len() - 1]);
        assert(text.drop_last().subrange(0, i) =~= text.subrange(0, i));
        assert forall|j: int| i <= j < text.drop_last().len() implies text.drop_last()[j]
            != ':' by {
            assert(text[j] != ':');
        }
        lemma_last_colon(text.drop_last(), i);
    }
}

fn find_last_colon(text: &str) -> (r: Option<usize>)
    ensures
        match r {
            Some(i) => last_colon(text@) == i && i < text@.len(),
            None => last_colon(text@) < 0,
        },
{
    let mut i: usize = text.unicode_len();
    while i > 0
        invariant
            i <= text@.len(),
            forall|j: int| i <= j < text@.len() ==> text@[j] != ':',
        decreases i,
    {
        i -= 1;
        if text.get_char(i) == ':' {
            proof {
                lemma_last_colon(text@, i + 1);
                assert(text@.subrange(0, i + 1).last() == ':');
            }
            return Some(i);
        }
    }
    proof {
        lemma_last_colon(text@, 0);
        assert(text@.subrange(0, 0) =~= Seq::empty());
    }
    None
}

/// A number only grows with more digits.
proof fn lemma_number_grows(text: Seq<char>, n: int)
    requires
        0 <= n <= text.len(),
        number(text) is Some,
    ensures
        number(text.subrange(0, n)) is Some,
        0 <= number(text.subrange(0, n))->Some_0 <= number(text)->Some_0,
    decreases text.len() - n,
{
    lemma_number_positive(text);
    if n == text.len() {
        assert(text.subrange(0, n) =~= text);
    } else {
        assert(text.drop_last().subrange(0, n) =~= text.subrange(0, n));
        lemma_number_grows(text.drop_last(), n);
    }
}

proof fn lemma_number_positive(text: Seq<char>)
    ensures
        number(text) is Some ==> number(text)->Some_0 >= 0,
    decreases text.len(),
{
    if text.len() > 0 {
        lemma_number_positive(text.drop_last());
    }
}

proof fn lemma_number_prefix(text: Seq<char>, n: int)
    requires
        0 <= n <= text.len(),
        number(text.subrange(0, n)) is None,
    ensures
        number(text) is None,
    decreases text.len() - n,
{
    if n == text.len() {
        assert(text.subrange(0, n) =~= text);
    } else {
        assert(text.drop_last().subrange(0, n) =~= text.subrange(0, n));
        lemma_number_prefix(text.drop_last(), n);
    }
}

fn parse_port(text: &str) -> (r: Option<u16>)
    ensures
        r == port_of(text@),
{
    let len: usize = text.unicode_len();
    let start: usize = if len > 0 && text.get_char(0) == '+' {
        1
    } else {
        0
    };
    let ghost digits = without_plus(text@);
    assert(digits =~= text@.subrange(start as int, len as int));
    if start == len {
        return None;
    }
    let mut total: u32 = 0;
    let mut i: usize = start;
    assert(digits.subrange(0, 0) =~= Seq::empty());
    while i < len
        invariant
            start <= i <= len == text@.len(),
            start <= 1,
            digits == without_plus(text@),
            digits == text@.subrange(start as int, len as int),
            number(digits.subrange(0, i - start)) == Some(total as int),
            total <= 65535,
        decreases len - i,
    {
        let c = text.get_char(i);
        proof {
            assert(digits.subrange(0, i + 1 - start).drop_last() =~= digits.subrange(
                0,
                i - start,
            ));
            assert(digits.subrange(0, i + 1 - start).last() == c);
        }
        if !('0' <= c && c <= '9') {
            proof {
                lemma_number_prefix(digits, i + 1 - start);
            }
            return None;
        }
        total = total * 10 + (c as u32 - 48);
        if total > 65535 {
            proof {
                if number(digits) is Some {
                    lemma_number_grows(digits, i + 1 - start);
                }
            }
            return None;
        }
        i += 1;
    }
    assert(digits.subrange(0, i - start) =~= digits);
    Some(total as u16)
}

impl Duplicate for Host {
    fn duplicate(&self) -> (r: Self) {
        match self {
            Host::Domain(domain) => Host::Domain(domain.duplicate()),
            Host::Ipv4(octets) => Host::Ipv4(*octets),
            Host::Ipv6(octets) => Host::Ipv6(*octets),
        }
    }
}

impl SeedAddress {
    /// The socket address, if the host is an IP address.
    pub fn socket_addr(&self) -> (r: Option<SocketAddr>)
        ensures
            r == match self.host {
                Host::Domain(_) => None,
                Host::Ipv4(octets) => Some(
                    SocketAddr { ip: IpAddr::V4(octets), port: self.port },
                ),
                Host::Ipv6(octets) => Some(
                    SocketAddr { ip: IpAddr::V6(octets), port: self.port },
                ),
            },
    {
        match &self.host {
            Host::Domain(_) => None,
            Host::Ipv4(octets) => Some(SocketAddr { ip: IpAddr::V4(*octets), port: self.port }),
            Host::Ipv6(octets) => Some(SocketAddr { ip: IpAddr::V6(*octets), port: self.port }),
        }
    }

    pub fn to_owned(&self) -> (r: SeedAddress)
        ensures
            r == *self,
    {
        SeedAddress { host: self.host.duplicate(), port: self.port }
    }

    /// Parses `host:port`, or `host` with the default port. An IPv6 address is
    /// put in brackets, as in `[::1]:4004`.
    pub fn parse(text: &str) -> (r: Result<Self, ParseSeedAddressError>)
        ensures
            match r {
                Ok(address) => seed_address_of(text@) == Ok::<
                    (HostView, u16),
                    ParseSeedAddressError,
                >((address.host@, address.port)),
                Err(e) => seed_address_of(text@) == Err::<(HostView, u16), ParseSeedAddressError>(
                    e,
                ),
            },
    {
        match find_last_colon(text) {
            None => match parse_host(text) {
                None => Err(ParseSeedAddressError::InvalidHost),
                Some(host) => Ok(SeedAddress { host, port: DEFAULT_PORT }),
            },
            Some(i) => {
                let len: usize = text.unicode_len();
                match parse_port(text.substring_char(i + 1, len)) {
                    None => Err(ParseSeedAddressError::InvalidPort),
                    Some(port) => match parse_host(text.substring_char(0, i)) {
                        None => Err(ParseSeedAddressError::InvalidHost),
                        Some(host) => Ok(SeedAddress { host, port }),
                    },
                }
            },
        }
    }

    /// The host and the port, with a colon between them.
    pub fn to_text(&self) -> (r: String)
        ensures
            r@ == host_text(self.host@) + seq![':'] + decimal(self.port as nat),
    {
        let mut r = match &self.host {
            Host::Domain(domain) => domain.duplicate(),
            Host::Ipv4(octets) => ipv4_text(octets),
            Host::Ipv6(octets) => ipv6_text(octets),
        };
        proof {
            reveal_strlit(":");
        }
        r.append(":");
        assert(r@ =~= host_text(self.host@) + seq![':']);
        push_decimal(&mut r, self.port as u32);
        r
    }
}

/// Four numbers with dots between them.
pub open spec fn dotted(octets: Seq<u8>) -> Seq<char> {
    decimal(octets[0] as nat) + seq!['.'] + decimal(octets[1] as nat) + seq!['.'] + decimal(
        octets[2] as nat,
    ) + seq!['.'] + decimal(octets[3] as nat)
}

/// How a host is written.
pub open spec fn host_text(host: HostView) -> Seq<char> {
    match host {
        HostView::Domain(domain) => domain,
        HostView::Ipv4(octets) => dotted(octets),
        HostView::Ipv6(octets) => url_ipv6_text(octets),
    }
}

fn ipv4_text(octets: &[u8; 4]) -> (r: String)
    ensures
        r@ == dotted(octets@),
{
    let mut r = String::new();
    proof {
        reveal_strlit(".");
    }
    push_decimal(&mut r, octets[0] as u32);
    assert(r@ =~= decimal(octets@[0] as nat));
    r.append(".");
    assert("."@ =~= seq!['.']);
    push_decimal(&mut r, octets[1] as u32);
    r.append(".");
    push_decimal(&mut r, octets[2] as u32);
    r.append(".");
    push_decimal(&mut r, octets[3] as u32);
    r
}

/// `nonempty::NonEmpty`: a list with at least one element.
#[verifier::external_type_specification]
#[verifier::external_body]
#[verifier::reject_recursive_types(T)]
pub struct ExNonEmpty<T>(nonempty::NonEmpty<T>);

/// The first address of a list.
pub uninterp spec fn nonempty_head(list: nonempty::NonEmpty<IpAddr>) -> IpAddr;

/// The other addresses of a list.
pub uninterp spec fn nonempty_tail(list: nonempty::NonEmpty<IpAddr>) -> Seq<IpAddr>;

/// `nonempty::NonEmpty::first`: the first address.
#[verifier::external_body]
pub(crate) fn head_of(list: &nonempty::NonEmpty<IpAddr>) -> (r: IpAddr)
    ensures
        r == nonempty_head(*list),
{
    *list.first()
}

/// `nonempty::NonEmpty::tail`: the other addresses, in their order.
#[verifier::external_body]
pub(crate) fn tail_of(list: &nonempty::NonEmpty<IpAddr>) -> (r: &[IpAddr])
    ensures
        r@ == nonempty_tail(*list),
{
    list.tail()
}

/// `nonempty::NonEmpty::last`: the last address, which is the first one where
/// there is no other.
#[verifier::external_body]
pub(crate) fn last_of(list: &nonempty::NonEmpty<IpAddr>) -> (r: IpAddr)
    ensures
        r == if nonempty_tail(*list).len() > 0 {
            nonempty_tail(*list).last()
        } else {
            nonempty_head(*list)
        },
{
    *list.last()
}

/// `nonempty::NonEmpty::pop`: the last address is removed and returned; where
/// there is one only, it stays.
#[verifier::external_body]
pub(crate) fn pop_from(list: &mut nonempty::NonEmpty<IpAddr>) -> (r: Option<IpAddr>)
    ensures
        nonempty_head(*final(list)) == nonempty_head(*old(list)),
        if nonempty_tail(*old(list)).len() > 0 {
            &&& r == Some(nonempty_tail(*old(list)).last())
            &&& nonempty_tail(*final(list)) == nonempty_tail(*old(list)).drop_last()
        } else {
            r is None && nonempty_tail(*final(list)) == nonempty_tail(*old(list))
        },
{
    list.pop()
}

/// A seed address, resolved to one or more IP addresses.
#[derive(Debug, PartialEq, Eq)]
pub enum ResolvedSeedAddress {
    Domain {
        domain: String,
        port: u16,
        /// The addresses in reverse order: the last one is to be tried first.
        addrs: nonempty::NonEmpty<IpAddr>,
    },
    /// An IP address needs no resolution.
    Static(SocketAddr),
}

impl ResolvedSeedAddress {
    /// The addresses in the order in which they are to be tried.
    pub open spec fn in_order(self) -> Seq<IpAddr> {
        match self {
            ResolvedSeedAddress::Domain { domain, port, addrs } => {
                nonempty_tail(addrs).reverse().push(nonempty_head(addrs))
            },
            ResolvedSeedAddress::Static(addr) => seq![addr.ip],
        }
    }

    pub open spec fn spec_port(self) -> u16 {
        match self {
            ResolvedSeedAddress::Domain { domain, port, addrs } => port,
            ResolvedSeedAddress::Static(addr) => addr.port,
        }
    }

    pub open spec fn spec_host(self) -> Host {
        match self {
            ResolvedSeedAddress::Domain { domain, port, addrs } => Host::Domain(domain),
            ResolvedSeedAddress::Static(addr) => match addr.ip {
                IpAddr::V4(octets) => Host::Ipv4(octets),
                IpAddr::V6(octets) => Host::Ipv6(octets),
            },
        }
    }

    pub fn host(&self) -> (r: Host)
        ensures
            r == self.spec_host(),
    {
        match self {
            ResolvedSeedAddress::Domain { domain, .. } => Host::Domain(domain.duplicate()),
            ResolvedSeedAddress::Static(addr) => match addr.ip {
                IpAddr::V4(octets) => Host::Ipv4(octets),
                IpAddr::V6(octets) => Host::Ipv6(octets),
            },
        }
    }

    pub fn port(&self) -> (r: u16)
        ensures
            r == self.spec_port(),
    {
        match self {
            ResolvedSeedAddress::Domain { port, .. } => *port,
            ResolvedSeedAddress::Static(addr) => addr.port,
        }
    }

    pub fn as_seed_address(&self) -> (r: SeedAddress)
        ensures
            r == (SeedAddress { host: self.spec_host(), port: self.spec_port() }),
    {
        SeedAddress { host: self.host(), port: self.port() }
    }

    /// The first resolved IP address.
    pub fn first_ip_addr(&self) -> (r: IpAddr)
        ensures
            r == self.in_order()[0],
    {
        match self {
            ResolvedSeedAddress::Domain { addrs, .. } => last_of(addrs),
            ResolvedSeedAddress::Static(addr) => addr.ip,
        }
    }

    /// Removes the first resolved IP address. The second value holds the other
    /// addresses, if there are any.
    pub fn pop_first_ip_addr(self) -> (r: (IpAddr, Option<Self>))
        ensures
            r.0 == self.in_order()[0],
            match r.1 {
                Some(rest) => {
                    &&& rest.in_order() == self.in_order().skip(1)
                    &&& rest.spec_host() == self.spec_host()
                    &&& rest.spec_port() == self.spec_port()
                },
                None => self.in_order().len() == 1,
            },
    {
        match self {
            ResolvedSeedAddress::Domain { domain, port, addrs } => {
                let mut addrs = addrs;
                match pop_from(&mut addrs) {
                    Some(addr) => {
                        let rest = ResolvedSeedAddress::Domain { domain, port, addrs };
                        assert(rest.in_order() =~= self.in_order().skip(1));
                        (addr, Some(rest))
                    },
                    None => (head_of(&addrs), None),
                }
            },
            ResolvedSeedAddress::Static(addr) => (addr.ip, None),
        }
    }

    /// The addresses in the order in which they are to be tried.
    pub fn ip_addrs(&self) -> (r: Vec<IpAddr>)
        ensures
            r@ == self.in_order(),
    {
        let mut r: Vec<IpAddr> = Vec::new();
        match self {
            ResolvedSeedAddress::Domain { addrs, .. } => {
                let tail = tail_of(addrs);
                let n: usize = tail.len();
                let mut i: usize = n;
                while i > 0
                    invariant
                        i <= n == tail@.len(),
                        r@ == tail@.reverse().subrange(0, n - i),
                    decreases i,
                {
                    i -= 1;
                    r.push(tail[i]);
                    assert(r@ =~= tail@.reverse().subrange(0, n - i));
                }
                r.push(head_of(addrs));
                assert(r@ =~= self.in_order());
            },
            ResolvedSeedAddress::Static(addr) => {
                r.push(addr.ip);
                assert(r@ =~= seq![addr.ip]);
            },
        }
        r
    }
}

/// Popping the first address again and again gives all addresses in order: the
/// first one is the one that is popped, and what is left has the others.
pub proof fn popping_gives_all(address: ResolvedSeedAddress)
    ensures
        address.in_order().len() > 0,
        address.in_order() == seq![address.in_order()[0]] + address.in_order().skip(1),
{
    assert(address.in_order() =~= seq![address.in_order()[0]] + address.in_order().skip(1));
}

impl From<SocketAddr> for ResolvedSeedAddress {
    fn from(addr: SocketAddr) -> (r: Self) {
        ResolvedSeedAddress::Static(addr)
    }
}

impl vstd::std_specs::convert::FromSpecImpl<SocketAddr> for ResolvedSeedAddress {
    open spec fn obeys_from_spec() -> bool {
        true
    }

    open spec fn from_spec(addr: SocketAddr) -> Self {
        ResolvedSeedAddress::Static(addr)
    }
}

} // verus!
