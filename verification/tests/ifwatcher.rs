use hyveos::ifwatcher::{IfAddress, IfEvent, IfWatcher, ListenWaiter};

fn a(if_index: u32, addr: u128) -> IfAddress {
    IfAddress { if_index, addr }
}

#[test]
fn each_new_address_is_reported_up_once() {
    let mut w = IfWatcher::new();
    w.add_address(2, &vec![10, 11, 10]);
    w.add_address(2, &vec![11]);
    assert_eq!(w.next_event(), Some(IfEvent::Up(a(2, 10))));
    assert_eq!(w.next_event(), Some(IfEvent::Up(a(2, 11))));
    assert_eq!(w.next_event(), None);
}

#[test]
fn only_known_addresses_are_reported_down() {
    let mut w = IfWatcher::new();
    w.add_address(1, &vec![7]);
    w.rem_address(1, &vec![7, 8]);
    w.rem_address(1, &vec![7]);
    assert_eq!(w.next_event(), Some(IfEvent::Up(a(1, 7))));
    assert_eq!(w.next_event(), Some(IfEvent::Down(a(1, 7))));
    assert_eq!(w.next_event(), None);
    w.add_address(1, &vec![7]);
    assert_eq!(w.next_event(), Some(IfEvent::Up(a(1, 7))));
}

#[test]
fn listening_waits_for_every_interface() {
    let mut l = ListenWaiter::new(&vec![3, 4, 3]);
    assert!(!l.is_done());
    l.on_event(IfEvent::Up(a(5, 1)));
    l.on_event(IfEvent::Down(a(3, 1)));
    l.on_event(IfEvent::Up(a(3, 2)));
    l.on_event(IfEvent::Up(a(3, 9)));
    assert!(!l.is_done());
    l.on_event(IfEvent::Up(a(4, 6)));
    assert!(l.is_done());
    assert_eq!(l.into_listen_addrs(), vec![a(3, 2), a(4, 6)]);
}
