use hyveos::graph::{Graph, MeshTopologyEvent, NeighbourEvent};

fn ev(peer: u8, event: NeighbourEvent) -> MeshTopologyEvent {
    MeshTopologyEvent { peer_id: vec![peer], event }
}

fn sorted_links(g: &Graph) -> (Vec<Vec<u8>>, Vec<(Vec<u8>, Vec<u8>)>) {
    let e = g.export();
    let mut nodes = e.nodes;
    nodes.sort();
    let mut links = e.links;
    links.sort();
    (nodes, links)
}

#[test]
fn discovered_links_show_between_reporting_nodes() {
    let mut g = Graph::new();
    g.process_event(ev(1, NeighbourEvent::Discovered(vec![2])));
    let (nodes, links) = sorted_links(&g);
    assert_eq!(nodes, vec![vec![1]]);
    assert!(links.is_empty());
    g.process_event(ev(2, NeighbourEvent::Init(vec![vec![1], vec![3]])));
    let (nodes, links) = sorted_links(&g);
    assert_eq!(nodes, vec![vec![1], vec![2]]);
    assert_eq!(links, vec![(vec![1], vec![2]), (vec![2], vec![1])]);
}

#[test]
fn losing_the_last_neighbour_drops_the_node() {
    let mut g = Graph::new();
    g.process_event(ev(1, NeighbourEvent::Discovered(vec![2])));
    g.process_event(ev(1, NeighbourEvent::Discovered(vec![2])));
    g.process_event(ev(1, NeighbourEvent::Lost(vec![2])));
    let (nodes, links) = sorted_links(&g);
    assert!(nodes.is_empty());
    assert!(links.is_empty());
    g.process_event(ev(5, NeighbourEvent::Lost(vec![6])));
    assert!(sorted_links(&g).0.is_empty());
}

#[test]
fn init_without_neighbours_keeps_a_lone_node() {
    let mut g = Graph::new();
    g.process_event(ev(7, NeighbourEvent::Init(vec![])));
    let (nodes, links) = sorted_links(&g);
    assert_eq!(nodes, vec![vec![7]]);
    assert!(links.is_empty());
}

#[test]
fn discover_then_lose_restores_the_mesh() {
    let mut g = Graph::new();
    g.process_event(ev(1, NeighbourEvent::Init(vec![vec![2]])));
    g.process_event(ev(2, NeighbourEvent::Init(vec![vec![1]])));
    let before = sorted_links(&g);
    g.process_event(ev(1, NeighbourEvent::Discovered(vec![3])));
    g.process_event(ev(1, NeighbourEvent::Lost(vec![3])));
    assert_eq!(sorted_links(&g), before);
}
