use hyveos::debug_events::{MessageDebugEventType, Response, ResponseError};
use hyveos::faker::{FakerOracle, MessageChoice};
use hyveos::graph::{MeshTopologyEvent, NeighbourEvent};

fn next_event(o: &mut FakerOracle) -> MeshTopologyEvent {
    match o.next_round() {
        Some(Ok(e)) => e,
        _ => panic!("expected a queued neighbour event"),
    }
}

#[test]
fn new_node_reports_its_neighbour_and_the_neighbour_links_back() {
    let mut o = FakerOracle::new();
    o.add_node_with(vec![1], None);
    let e = next_event(&mut o);
    assert_eq!(e.peer_id, vec![1]);
    assert!(matches!(e.event, NeighbourEvent::Init(ref ns) if ns.is_empty()));
    o.add_node_with(vec![2], Some(0));
    let e = next_event(&mut o);
    assert_eq!(e.peer_id, vec![2]);
    assert!(matches!(e.event, NeighbourEvent::Init(ref ns) if ns == &vec![vec![1u8]]));
    let e = next_event(&mut o);
    assert_eq!(e.peer_id, vec![1]);
    assert!(matches!(e.event, NeighbourEvent::Discovered(ref n) if n == &vec![2u8]));
}

#[test]
fn a_known_identity_adds_nothing() {
    let mut o = FakerOracle::new();
    o.add_node_with(vec![1], None);
    let _ = next_event(&mut o);
    o.add_node_with(vec![1], None);
    o.add_link_between(0, 0);
    let e = next_event(&mut o);
    assert!(matches!(e.event, NeighbourEvent::Discovered(ref n) if n == &vec![1u8]));
}

#[test]
fn removing_a_link_reports_both_ends_losing_it() {
    let mut o = FakerOracle::new();
    o.add_node_with(vec![1], None);
    o.add_node_with(vec![2], Some(0));
    for _ in 0..3 {
        let _ = next_event(&mut o);
    }
    o.remove_link_at(0, 0);
    let e = next_event(&mut o);
    assert_eq!(e.peer_id, vec![1]);
    assert!(matches!(e.event, NeighbourEvent::Lost(ref n) if n == &vec![2u8]));
    let e = next_event(&mut o);
    assert_eq!(e.peer_id, vec![2]);
    assert!(matches!(e.event, NeighbourEvent::Lost(ref n) if n == &vec![1u8]));
}

#[test]
fn removing_a_node_makes_its_neighbours_lose_it() {
    let mut o = FakerOracle::new();
    o.add_node_with(vec![1], None);
    o.add_node_with(vec![2], Some(0));
    o.add_node_with(vec![3], Some(0));
    for _ in 0..5 {
        let _ = next_event(&mut o);
    }
    o.remove_node_at(0);
    let e = next_event(&mut o);
    assert_eq!(e.peer_id, vec![2]);
    assert!(matches!(e.event, NeighbourEvent::Lost(ref n) if n == &vec![1u8]));
    let e = next_event(&mut o);
    assert_eq!(e.peer_id, vec![3]);
    assert!(matches!(e.event, NeighbourEvent::Lost(ref n) if n == &vec![1u8]));
}

#[test]
fn requests_wait_for_their_answer() {
    let mut o = FakerOracle::new();
    o.add_node_with(vec![1], None);
    o.add_node_with(vec![2], Some(0));
    for _ in 0..3 {
        let _ = next_event(&mut o);
    }
    let m = o.message_with(0, b"hi".to_vec(), MessageChoice::Request { receiver: 0, id: 99, topic: Some("t".to_string()) });
    assert_eq!(m.sender, vec![1]);
    match m.event {
        MessageDebugEventType::Request(r) => {
            assert_eq!(r.id, 99);
            assert_eq!(r.receiver, vec![2]);
            assert_eq!(r.msg.data, b"hi".to_vec());
            assert_eq!(r.msg.topic, Some("t".to_string()));
        }
        _ => panic!("expected a request"),
    }
    let a = o.respond_with(0, Response::Error(ResponseError::Script("no".to_string())));
    assert_eq!(a.sender, vec![2]);
    match a.event {
        MessageDebugEventType::Response(r) => {
            assert_eq!(r.req_id, 99);
            assert!(matches!(r.response, Response::Error(ResponseError::Script(ref s)) if s == "no"));
        }
        _ => panic!("expected a response"),
    }
    let g = o.message_with(1, b"x".to_vec(), MessageChoice::GossipSub { topic: "news".to_string() });
    assert_eq!(g.sender, vec![2]);
    assert!(matches!(g.event, MessageDebugEventType::GossipSub(ref m) if m.topic == "news" && m.data == b"x".to_vec()));
}

#[test]
fn random_rounds_keep_going_without_consistency_errors() {
    let mut o = FakerOracle::default();
    let mut topology = 0;
    let mut messages = 0;
    for _ in 0..3000 {
        match o.next_round() {
            Some(Ok(e)) => {
                assert_eq!(e.peer_id.len(), 34);
                topology += 1;
            }
            Some(Err(m)) => {
                if let MessageDebugEventType::GossipSub(g) = &m.event {
                    assert!((4..=10).contains(&g.topic.len()));
                    assert!(g.topic.chars().all(|c| c.is_ascii_alphanumeric()));
                    assert!((1..=100).contains(&g.data.len()));
                }
                messages += 1;
            }
            None => {}
        }
    }
    assert!(topology > 0);
    assert!(messages > 0);
}
