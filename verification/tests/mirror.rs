use hyveos::faker::FakerOracle;
use hyveos::graph::Graph;

fn feed(o: &mut FakerOracle, g: &mut Graph, n: usize) {
    for _ in 0..n {
        match o.next_round() {
            Some(Ok(e)) => g.process_event(e),
            _ => panic!("expected a queued neighbour event"),
        }
    }
}

fn sorted(g: &Graph) -> (Vec<Vec<u8>>, Vec<(Vec<u8>, Vec<u8>)>) {
    let e = g.export();
    let mut nodes = e.nodes;
    nodes.sort();
    let mut links = e.links;
    links.sort();
    (nodes, links)
}

#[test]
fn graph_fed_by_the_faker_shows_its_mesh() {
    let mut o = FakerOracle::new();
    let mut g = Graph::new();
    o.add_node_with(vec![1], None);
    o.add_node_with(vec![2], Some(0));
    o.add_node_with(vec![3], Some(1));
    feed(&mut o, &mut g, 5);
    let (nodes, links) = sorted(&g);
    assert_eq!(nodes, vec![vec![1], vec![2], vec![3]]);
    assert_eq!(
        links,
        vec![(vec![1], vec![2]), (vec![2], vec![1]), (vec![2], vec![3]), (vec![3], vec![2])]
    );
    o.add_link_between(0, 2);
    feed(&mut o, &mut g, 2);
    let (_, links) = sorted(&g);
    assert_eq!(links.len(), 6);
    assert!(links.contains(&(vec![1], vec![3])) && links.contains(&(vec![3], vec![1])));
    o.remove_link_at(0, 0);
    feed(&mut o, &mut g, 2);
    let (nodes, links) = sorted(&g);
    assert_eq!(nodes, vec![vec![1], vec![2], vec![3]]);
    assert!(!links.contains(&(vec![1], vec![2])) && !links.contains(&(vec![2], vec![1])));
    assert_eq!(links.len(), 4);
}

#[test]
fn graph_keeps_a_removed_node_that_had_neighbours() {
    let mut o = FakerOracle::new();
    let mut g = Graph::new();
    o.add_node_with(vec![1], None);
    o.add_node_with(vec![2], Some(0));
    feed(&mut o, &mut g, 3);
    o.remove_node_at(0);
    feed(&mut o, &mut g, 1);
    let (nodes, links) = sorted(&g);
    assert_eq!(nodes, vec![vec![1]]);
    assert!(links.is_empty());
}
