use hyveos::ifwatcher::IfAddress;
use hyveos::neighbour_resolvers::{dial_addresses, group_by_interface, position_on_interface, resolved_dials, AddResolver, Dial, ResolverRegistry};

fn addr(if_index: u32, addr: u128) -> IfAddress {
    IfAddress { if_index, addr }
}

#[test]
fn resolvers_skip_mesh_interface_and_loopback() {
    let reg = ResolverRegistry::new(3);
    assert!(!reg.wants(addr(3, 0xfe80 << 112)));
    assert!(!reg.wants(addr(1, 1)));
    assert!(reg.wants(addr(2, 0xfe80 << 112)));
}

#[test]
fn resolver_starts_on_first_listen_address_of_interface() {
    let mut reg = ResolverRegistry::new(3);
    let a = addr(2, 0xfe80 << 112 | 5);
    assert_eq!(reg.add_resolver(a, &vec![None, Some(4), Some(2), Some(2)]), AddResolver::Start(2));
    reg.started(a);
    assert!(reg.has_resolver(2));
    assert_eq!(reg.add_resolver(a, &vec![Some(2)]), AddResolver::Running);
    assert_eq!(reg.on_down(a), Some(a));
    assert!(!reg.has_resolver(2));
}

#[test]
fn resolver_waits_for_a_listen_address() {
    let mut reg = ResolverRegistry::new(3);
    let a = addr(5, 0xfe80 << 112 | 9);
    let b = addr(6, 0xfe80 << 112 | 10);
    assert_eq!(reg.add_resolver(a, &vec![Some(4)]), AddResolver::Wait);
    assert_eq!(reg.add_resolver(a, &vec![]), AddResolver::Wait);
    assert_eq!(reg.add_resolver(b, &vec![]), AddResolver::Wait);
    assert_eq!(reg.on_down(b), None);
    let waiting = reg.take_pending();
    assert_eq!(waiting, vec![a]);
    assert!(reg.take_pending().is_empty());
    assert_eq!(reg.add_resolver(a, &vec![Some(5)]), AddResolver::Start(0));
}

#[test]
fn resolver_stops_for_closed_channel() {
    let mut reg = ResolverRegistry::new(0);
    let a = addr(7, 42);
    reg.started(a);
    assert_eq!(reg.stop_resolver(7), Some(a));
    assert_eq!(reg.stop_resolver(7), None);
}

#[test]
fn listen_position_is_first_match() {
    assert_eq!(position_on_interface(&vec![Some(1), Some(2), Some(2)], 2), Some(1));
    assert_eq!(position_on_interface(&vec![None, Some(1)], 2), None);
}

#[test]
fn discovered_neighbours_grouped_by_interface() {
    let m1 = [1u8, 0, 0, 0, 0, 1];
    let m2 = [2u8, 0, 0, 0, 0, 2];
    let m3 = [3u8, 0, 0, 0, 0, 3];
    let groups = group_by_interface(&vec![(4, m1), (5, m2), (4, m3)]);
    assert_eq!(groups.len(), 2);
    assert!(groups.contains(&(4, vec![m1, m3])));
    assert!(groups.contains(&(5, vec![m2])));
    assert!(group_by_interface(&vec![]).is_empty());
}

#[test]
fn dial_addresses_add_direct_then_first_mesh_address() {
    let neighbours = vec![(vec![1u8], vec![9u8]), (vec![2u8], vec![8u8])];
    assert_eq!(dial_addresses(&neighbours, &vec![]), vec![vec![1u8], vec![2u8], vec![9u8]]);
    assert_eq!(dial_addresses(&neighbours, &vec![vec![2u8], vec![9u8]]), vec![vec![1u8]]);
    assert!(dial_addresses(&vec![], &vec![vec![1u8]]).is_empty());
}

#[test]
fn resolved_neighbours_are_dialled_direct_address_first() {
    let resolved = vec![
        (vec![1u8], vec![10u8], vec![20u8]),
        (vec![2u8], vec![11u8], vec![21u8]),
    ];
    let dials = resolved_dials(&resolved);
    assert_eq!(
        dials,
        vec![
            Dial { peer: vec![1], addresses: vec![vec![20], vec![10]] },
            Dial { peer: vec![2], addresses: vec![vec![21], vec![11]] },
        ]
    );
    assert!(resolved_dials(&Vec::new()).is_empty());
}
