use hyveos::addr_filter::Whitelist;

#[test]
fn without_a_whitelist_every_address_passes() {
    let w = Whitelist::new();
    assert!(w.admits(&vec![1, 2, 3]));
    assert!(w.admits(&vec![]));
}

#[test]
fn with_a_whitelist_only_that_address_passes() {
    let mut w = Whitelist::new();
    w.with_whitelist(vec![4, 5]);
    assert!(w.admits(&vec![4, 5]));
    assert!(!w.admits(&vec![4]));
    assert!(!w.admits(&vec![4, 5, 6]));
}

use hyveos::debug_subscribers::{announcement, ControlMessage, DebugCommand, DebugSubscribers};

#[test]
fn debug_announcements_name_the_local_node() {
    let own = vec![1u8];
    assert!(matches!(announcement(DebugCommand::SubscribeNeighbourEvents, &own), ControlMessage::SubscribeNeighbours(ref p) if p == &own));
    assert!(matches!(announcement(DebugCommand::UnsubscribeMessageEvents, &own), ControlMessage::UnsubscribeMessages(ref p) if p == &own));
}

#[test]
fn debug_subscribers_follow_announcements_of_other_nodes() {
    let own = vec![1u8];
    let other = vec![2u8];
    let mut s = DebugSubscribers::new();
    assert!(s.handle_control(&own, &own, ControlMessage::SubscribeMessages(own.clone())).is_none());
    assert!(s.message_event_targets().is_empty());
    assert_eq!(s.handle_control(&own, &other, ControlMessage::SubscribeNeighbours(other.clone())), Some(other.clone()));
    assert_eq!(s.handle_control(&own, &other, ControlMessage::SubscribeNeighbours(other.clone())), Some(other.clone()));
    assert_eq!(s.neighbour_event_targets(false), vec![other.clone()]);
    assert!(s.neighbour_event_targets(true).is_empty());
    assert!(s.handle_control(&own, &other, ControlMessage::SubscribeMessages(vec![3])).is_none());
    assert_eq!(s.message_event_targets(), vec![vec![3u8]]);
    s.handle_control(&own, &other, ControlMessage::UnsubscribeNeighbours(other.clone()));
    assert!(s.neighbour_event_targets(false).is_empty());
    s.handle_control(&own, &other, ControlMessage::UnsubscribeMessages(vec![3]));
    assert!(s.message_event_targets().is_empty());
}
