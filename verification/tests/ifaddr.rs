use hyveos::ifaddr::{parse_u32, parse_zone, split_scope, u32_to_string, IfAddr, IfAddrError, ProtocolHead, Zone};

#[test]
fn scoped_address_splits_at_the_first_percent() {
    assert_eq!(split_scope("fe80::1%eth0"), Ok(("fe80::1".to_string(), Zone::Name("eth0".to_string()))));
    assert_eq!(split_scope("fe80::1%3"), Ok(("fe80::1".to_string(), Zone::Index(3))));
    assert_eq!(split_scope("a%b%c"), Ok(("a".to_string(), Zone::Name("b%c".to_string()))));
    assert_eq!(split_scope("fe80::1"), Err(IfAddrError::MissingScopeId));
    assert_eq!(split_scope(""), Err(IfAddrError::MissingScopeId));
    assert_eq!(split_scope("x%"), Ok(("x".to_string(), Zone::Name(String::new()))));
}

#[test]
fn zones_are_indices_where_they_parse_as_u32() {
    assert_eq!(parse_zone("+12"), Zone::Index(12));
    assert_eq!(parse_zone("4294967295"), Zone::Index(u32::MAX));
    assert_eq!(parse_zone("4294967296"), Zone::Name("4294967296".to_string()));
    assert_eq!(parse_zone("-1"), Zone::Name("-1".to_string()));
    assert_eq!(parse_u32("007"), Some(7));
    assert_eq!(parse_u32("+"), None);
}

#[test]
fn zone_text_is_the_name_or_the_decimal_index() {
    let a = IfAddr { if_index: 120, if_name: "wlan0".to_string(), addr: 1 };
    assert_eq!(a.zone_text(true), "wlan0");
    assert_eq!(a.zone_text(false), "120");
    assert_eq!(u32_to_string(0), "0");
    assert_eq!(u32_to_string(u32::MAX), "4294967295");
}

#[test]
fn multiaddress_must_start_with_address_and_zone() {
    assert_eq!(
        IfAddr::zone_of_protocols(Some(ProtocolHead::Ip6(5)), Some(ProtocolHead::Ip6zone("2".to_string()))),
        Ok((5, Zone::Index(2)))
    );
    assert_eq!(
        IfAddr::zone_of_protocols(Some(ProtocolHead::Ip6zone("2".to_string())), Some(ProtocolHead::Ip6(5))),
        Err(IfAddrError::InvalidMultiaddr)
    );
    assert_eq!(IfAddr::zone_of_protocols(Some(ProtocolHead::Ip6(5)), None), Err(IfAddrError::InvalidMultiaddr));
    let m: multiaddr::Multiaddr = "/ip6/fe80::1/ip6zone/eth0".parse().unwrap();
    assert_eq!(IfAddr::zone_of_multiaddr(&m), Ok((0xfe80_0000_0000_0000_0000_0000_0000_0001, Zone::Name("eth0".to_string()))));
    let m: multiaddr::Multiaddr = "/ip4/1.2.3.4".parse().unwrap();
    assert_eq!(IfAddr::zone_of_multiaddr(&m), Err(IfAddrError::InvalidMultiaddr));
}

#[test]
fn multiaddress_of_an_address_gives_back_address_and_zone() {
    let a = IfAddr { if_index: 7, if_name: "wlan0".to_string(), addr: 0xfe80_0000_0000_0000_0000_0000_0000_0002 };
    let by_index = a.to_multiaddr(false);
    assert_eq!(by_index.to_string(), "/ip6/fe80::2/ip6zone/7");
    assert_eq!(IfAddr::zone_of_multiaddr(&by_index), Ok((a.addr, Zone::Index(7))));
    let by_name = a.to_multiaddr(true);
    assert_eq!(by_name.to_string(), "/ip6/fe80::2/ip6zone/wlan0");
    assert_eq!(IfAddr::zone_of_multiaddr(&by_name), Ok((a.addr, Zone::Name("wlan0".to_string()))));
}

#[test]
fn an_index_written_in_decimal_parses_back() {
    for n in [0u32, 9, 10, 120, 65535, u32::MAX] {
        assert_eq!(parse_zone(&u32_to_string(n)), Zone::Index(n));
    }
}
