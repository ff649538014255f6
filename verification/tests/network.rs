//! Addresses of peers, and what is asked of the mainchain.

use nonempty::NonEmpty;
use truthcoin::node::mainchain::{AncestorStep, AncestorWalk, MainHeaderInfo};
use truthcoin::types::net::{
    Host, IpAddr, ParseSeedAddressError, ResolvedSeedAddress, SeedAddress,
};
use truthcoin::types::MainBlockHash;

fn v6(last: u8) -> [u8; 16] {
    let mut octets = [0; 16];
    octets[15] = last;
    octets
}

#[test]
fn seed_resolution_keeps_both_address_families() {
    let v4 = IpAddr::V4([127, 0, 0, 1]);
    let v6 = IpAddr::V6(v6(1));
    let resolved = ResolvedSeedAddress::Domain {
        domain: "localhost".to_owned(),
        port: 4013,
        addrs: NonEmpty { head: v4, tail: vec![v6] },
    };
    assert_eq!(resolved.ip_addrs(), [v6, v4]);
    let (first, rest) = resolved.pop_first_ip_addr();
    assert_eq!(first, v6);
    assert_eq!(rest.map(|rest| rest.first_ip_addr()), Some(v4));
}

#[test]
fn a_seed_address_is_read_and_written() {
    let seed = SeedAddress::parse("seed.alpha.ecash.eu.com:4013").unwrap();
    assert_eq!(seed.port, 4013);
    assert!(matches!(&seed.host, Host::Domain(name) if name == "seed.alpha.ecash.eu.com"));
    assert_eq!(seed.to_text(), "seed.alpha.ecash.eu.com:4013");
    assert!(seed.socket_addr().is_none());

    // a host name is written in lower case
    assert_eq!(SeedAddress::parse("LocalHost:80").unwrap().to_text(), "localhost:80");

    let four = SeedAddress::parse("172.16.0.9:65535").unwrap();
    assert_eq!(four.to_text(), "172.16.0.9:65535");
    assert!(matches!(four.socket_addr().unwrap().ip, IpAddr::V4([172, 16, 0, 9])));

    let six = SeedAddress::parse("[2001:0db8::0001]:9").unwrap();
    assert_eq!(six.to_text(), "[2001:db8::1]:9");
    assert_eq!(six.to_owned().to_text(), "[2001:db8::1]:9");
}

#[test]
fn a_seed_address_without_a_port_has_the_default_port() {
    assert_eq!(SeedAddress::parse("localhost").unwrap().to_text(), "localhost:4013");
    assert_eq!(SeedAddress::parse("localhost:+80").unwrap().port, 80);
}

#[test]
fn a_bad_seed_address_is_rejected() {
    for text in ["localhost:65536", "localhost:", "localhost:+", "localhost:x", "[::1]"] {
        assert_eq!(SeedAddress::parse(text), Err(ParseSeedAddressError::InvalidPort), "{text}");
    }
    for text in ["a b:1", ":1", "[::1:2"] {
        assert_eq!(SeedAddress::parse(text), Err(ParseSeedAddressError::InvalidHost), "{text}");
    }
}

fn header(n: u8, prev: u8) -> MainHeaderInfo {
    MainHeaderInfo {
        block_hash: MainBlockHash([n; 32]),
        prev_block_hash: MainBlockHash([prev; 32]),
        height: n as u32,
    }
}

#[test]
fn ancestor_walk_asks_for_20000_headers() {
    let tip = MainBlockHash([100; 32]);
    let mut walk = AncestorWalk::new(tip, false);
    let mut asked = vec![];
    if let AncestorStep::Ask { block_hash, max_ancestors } = walk.step {
        assert_eq!(block_hash, tip);
        asked.push(max_ancestors);
    }
    // the first block of the mainchain has no parent
    walk.answer(&Some(vec![header(100, 0)]));
    assert!(matches!(walk.step, AncestorStep::Store));
    assert_eq!(walk.into_stored().len(), 1);
    assert_eq!(asked, [19_999]);
}
