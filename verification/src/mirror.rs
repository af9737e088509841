//! What a viewer's graph shows of the made-up mesh: a graph that processes the neighbour
//! events the faker hands out shows each node with the neighbours the faker gave it.
use vstd::prelude::*;

use crate::faker::{
    add_link_spec, add_node_spec, connect_spec, disconnect_spec, lemma_remove_node_done,
    lemma_remove_node_start, lemma_remove_node_step, lemma_single_to_set, lost_events,
    partly_without, remove_link_spec, symmetric, without_node, Events, Links,
};
use crate::graph::{
    after_discovered, after_event, after_init, after_lost, neighbours_in, MeshTopologyEvent,
    NeighbourEventView,
};

verus! {

/// The graph after an event, by the bytes of the peers it names.
pub open spec fn apply_event(m: Links, e: (Seq<u8>, NeighbourEventView)) -> Links {
    match e.1 {
        NeighbourEventView::Init(ns) => after_init(m, e.0, ns.to_set()),
        NeighbourEventView::Discovered(n) => after_discovered(m, e.0, n),
        NeighbourEventView::Lost(n) => after_lost(m, e.0, n),
    }
}

/// The graph after the events `q`, first one first.
pub open spec fn replay(m: Links, q: Events) -> Links
    decreases q.len(),
{
    if q.len() == 0 {
        m
    } else {
        apply_event(replay(m, q.drop_last()), q.last())
    }
}

/// The graph `g` shows the mesh `l`: each node of the graph has the neighbours it has
/// in the mesh, and each node of the mesh that has a neighbour is in the graph.
pub open spec fn mirrors(l: Links, g: Links) -> bool {
    &&& forall|p: Seq<u8>| #[trigger] g.contains_key(p) ==> l.contains_key(p) && g[p] == l[p]
    &&& forall|p: Seq<u8>| #[trigger] l.contains_key(p) && !l[p].is_empty() ==> g.contains_key(p)
}

/// An empty graph shows the faker's mesh before it made any node.
pub proof fn lemma_start_mirrored()
    ensures
        mirrors(Map::<Seq<u8>, Set<Seq<u8>>>::empty(), replay(Map::empty(), Seq::empty())),
{
}

/// The graph's processing of an event is `apply_event` of its view.
pub proof fn lemma_after_event_view(m: Links, e: MeshTopologyEvent)
    ensures
        after_event(m, e) == apply_event(m, e@),
{
}

proof fn lemma_replay_push(m: Links, q: Events, e: (Seq<u8>, NeighbourEventView))
    ensures
        replay(m, q.push(e)) == apply_event(replay(m, q), e),
{
    assert(q.push(e).drop_last() =~= q);
}

proof fn lemma_replay_append(m: Links, q1: Events, q2: Events)
    ensures
        replay(m, q1 + q2) == replay(replay(m, q1), q2),
    decreases q2.len(),
{
    if q2.len() == 0 {
        assert(q1 + q2 =~= q1);
    } else {
        lemma_replay_append(m, q1, q2.drop_last());
        assert((q1 + q2).drop_last() =~= q1 + q2.drop_last());
        assert((q1 + q2).last() == q2.last());
    }
}

/// A graph that processes the first event waiting sees, with the events still waiting,
/// the same as before.
pub proof fn lemma_replay_front(m: Links, q: Events, e: MeshTopologyEvent)
    requires
        q.len() > 0,
        e@ == q[0],
    ensures
        replay(after_event(m, e), q.drop_first()) == replay(m, q),
{
    lemma_after_event_view(m, e);
    let first = seq![q[0]];
    assert(first + q.drop_first() =~= q);
    lemma_replay_append(m, first, q.drop_first());
    assert(first == Seq::<(Seq<u8>, NeighbourEventView)>::empty().push(q[0]));
    lemma_replay_push(m, Seq::empty(), q[0]);
}

proof fn lemma_connect_mirrors(l: Links, h: Links, q: Events, a: Seq<u8>, b: Seq<u8>)
    requires
        mirrors(l, h),
        l.contains_key(a),
    ensures
        mirrors(connect_spec(l, q, a, b).0, replay(h, connect_spec(l, q, a, b).1.skip(q.len() as int))),
{
    if l[a].contains(b) {
        assert(q.skip(q.len() as int) =~= Seq::<(Seq<u8>, NeighbourEventView)>::empty());
    } else {
        let e = (a, NeighbourEventView::Discovered(b));
        assert(q.push(e).skip(q.len() as int) =~= Seq::<(Seq<u8>, NeighbourEventView)>::empty().push(e));
        lemma_replay_push(h, Seq::empty(), e);
        let l1 = l.insert(a, l[a].insert(b));
        let h1 = after_discovered(h, a, b);
        assert(neighbours_in(h, a) == l[a]) by {
            if !h.contains_key(a) {
                assert(l[a].is_empty());
                assert(neighbours_in(h, a) =~= l[a]);
            }
        }
        assert forall|p: Seq<u8>| #[trigger] h1.contains_key(p) implies l1.contains_key(p) && h1[p] == l1[p] by {
            if p != a {
                assert(h.contains_key(p));
            }
        }
        assert forall|p: Seq<u8>| #[trigger] l1.contains_key(p) && !l1[p].is_empty() implies h1.contains_key(p) by {
            if p != a {
                assert(l.contains_key(p) && !l[p].is_empty());
            }
        }
    }
}

proof fn lemma_disconnect_mirrors(l: Links, h: Links, q: Events, a: Seq<u8>, b: Seq<u8>)
    requires
        mirrors(l, h),
        l.contains_key(a),
    ensures
        mirrors(disconnect_spec(l, q, a, b).0, after_lost(h, a, b)),
{
    let l1 = l.insert(a, l[a].remove(b));
    let l2 = disconnect_spec(l, q, a, b).0;
    let h1 = after_lost(h, a, b);
    if !h.contains_key(a) {
        assert(l[a].is_empty());
        assert(l1[a] =~= Set::<Seq<u8>>::empty());
        assert forall|p: Seq<u8>| #[trigger] h1.contains_key(p) implies l2.contains_key(p) && h1[p] == l2[p] by {
            assert(p != a);
        }
        assert forall|p: Seq<u8>| #[trigger] l2.contains_key(p) && !l2[p].is_empty() implies h1.contains_key(p) by {
            if p != a {
                assert(l.contains_key(p) && !l[p].is_empty());
            }
        }
    } else {
        assert(h[a] == l[a]);
        assert forall|p: Seq<u8>| #[trigger] h1.contains_key(p) implies l2.contains_key(p) && h1[p] == l2[p] by {
            if p != a {
                assert(h.contains_key(p));
            }
        }
        assert forall|p: Seq<u8>| #[trigger] l2.contains_key(p) && !l2[p].is_empty() implies h1.contains_key(p) by {
            if p != a {
                assert(l.contains_key(p) && !l[p].is_empty());
            }
        }
    }
}

/// A node the faker adds shows in the graph with the neighbour it was given, and that
/// neighbour with its new link, once the graph processed the events.
pub proof fn lemma_add_node_mirrored(l: Links, g: Links, q: Events, p: Seq<u8>, x: Option<Seq<u8>>)
    requires
        mirrors(l, replay(g, q)),
        !l.contains_key(p),
        x matches Some(x) ==> l.contains_key(x),
    ensures
        mirrors(add_node_spec(l, q, p, x).0, replay(g, add_node_spec(l, q, p, x).1)),
{
    let h = replay(g, q);
    assert(!h.contains_key(p));
    match x {
        Some(x) => {
            let e = (p, NeighbourEventView::Init(seq![x]));
            lemma_single_to_set(x);
            lemma_replay_push(g, q, e);
            let l1 = l.insert(p, Set::empty().insert(x));
            let q1 = q.push(e);
            let h1 = replay(g, q1);
            assert(neighbours_in(h, p) =~= Set::<Seq<u8>>::empty());
            assert(h1 == h.insert(p, Set::<Seq<u8>>::empty().union(Set::empty().insert(x))));
            assert(Set::<Seq<u8>>::empty().union(Set::empty().insert(x)) =~= Set::empty().insert(x));
            assert(mirrors(l1, h1)) by {
                assert forall|y: Seq<u8>| #[trigger] h1.contains_key(y) implies l1.contains_key(y) && h1[y] == l1[y] by {
                    if y != p {
                        assert(h.contains_key(y));
                    }
                }
                assert forall|y: Seq<u8>| #[trigger] l1.contains_key(y) && !l1[y].is_empty() implies h1.contains_key(y) by {
                    if y != p {
                        assert(l.contains_key(y) && !l[y].is_empty());
                    }
                }
            }
            lemma_connect_mirrors(l1, h1, q1, x, p);
            let q2 = connect_spec(l1, q1, x, p).1;
            assert(q2 =~= q1 + q2.skip(q1.len() as int));
            lemma_replay_append(g, q1, q2.skip(q1.len() as int));
        },
        None => {
            let e = (p, NeighbourEventView::Init(Seq::empty()));
            lemma_replay_push(g, q, e);
            let l1 = l.insert(p, Set::empty());
            let h1 = replay(g, q.push(e));
            assert(Seq::<Seq<u8>>::empty().to_set() =~= Set::<Seq<u8>>::empty());
            assert(neighbours_in(h, p) =~= Set::<Seq<u8>>::empty());
            assert(Set::<Seq<u8>>::empty().union(Set::<Seq<u8>>::empty()) =~= Set::<Seq<u8>>::empty());
            assert forall|y: Seq<u8>| #[trigger] h1.contains_key(y) implies l1.contains_key(y) && h1[y] == l1[y] by {
                if y != p {
                    assert(h.contains_key(y));
                }
            }
            assert forall|y: Seq<u8>| #[trigger] l1.contains_key(y) && !l1[y].is_empty() implies h1.contains_key(y) by {
                if y != p {
                    assert(l.contains_key(y) && !l[y].is_empty());
                }
            }
        },
    }
}

/// A link the faker adds shows in the graph, both ways, once the graph processed the
/// events.
pub proof fn lemma_add_link_mirrored(l: Links, g: Links, q: Events, a: Seq<u8>, b: Seq<u8>)
    requires
        mirrors(l, replay(g, q)),
        l.contains_key(a),
        l.contains_key(b),
    ensures
        mirrors(add_link_spec(l, q, a, b).0, replay(g, add_link_spec(l, q, a, b).1)),
{
    let h = replay(g, q);
    let (l1, q1) = connect_spec(l, q, a, b);
    lemma_connect_mirrors(l, h, q, a, b);
    assert(q1 =~= q + q1.skip(q.len() as int));
    lemma_replay_append(g, q, q1.skip(q.len() as int));
    let h1 = replay(g, q1);
    assert(l1.contains_key(b));
    lemma_connect_mirrors(l1, h1, q1, b, a);
    let q2 = connect_spec(l1, q1, b, a).1;
    assert(q2 =~= q1 + q2.skip(q1.len() as int));
    lemma_replay_append(g, q1, q2.skip(q1.len() as int));
}

/// A link the faker removes is gone from the graph, both ways, once the graph processed
/// the events.
pub proof fn lemma_remove_link_mirrored(l: Links, g: Links, q: Events, p: Seq<u8>, x: Seq<u8>)
    requires
        mirrors(l, replay(g, q)),
        l.contains_key(p),
    ensures
        mirrors(remove_link_spec(l, q, p, x).0, replay(g, remove_link_spec(l, q, p, x).1)),
{
    let h = replay(g, q);
    let (l1, q1) = disconnect_spec(l, q, p, x);
    lemma_disconnect_mirrors(l, h, q, p, x);
    lemma_replay_push(g, q, (p, NeighbourEventView::Lost(x)));
    if l1.contains_key(x) && l1[x].contains(p) {
        let h1 = replay(g, q1);
        lemma_disconnect_mirrors(l1, h1, q1, x, p);
        lemma_replay_push(g, q1, (x, NeighbourEventView::Lost(p)));
    }
}

proof fn lemma_remove_node_prefix(l: Links, h0: Links, p: Seq<u8>, xs: Seq<Seq<u8>>, k: int)
    requires
        mirrors(l.remove(p), h0),
        !h0.contains_key(p),
        symmetric(l),
        l.contains_key(p),
        xs.no_duplicates(),
        xs.to_set() == l[p],
        0 <= k <= xs.len(),
    ensures
        mirrors(partly_without(l, p, xs.take(k).to_set()), replay(h0, lost_events(xs.take(k), p))),
        !replay(h0, lost_events(xs.take(k), p)).contains_key(p),
    decreases k,
{
    if k == 0 {
        lemma_remove_node_start(l, p);
        assert(xs.take(0).to_set() =~= Set::<Seq<u8>>::empty());
        assert(lost_events(xs.take(0), p) =~= Seq::<(Seq<u8>, NeighbourEventView)>::empty());
    } else {
        lemma_remove_node_prefix(l, h0, p, xs, k - 1);
        lemma_remove_node_step(l, Seq::empty(), p, xs, k - 1);
        let x = xs[k - 1];
        let hk = replay(h0, lost_events(xs.take(k - 1), p));
        if x != p {
            let cur = partly_without(l, p, xs.take(k - 1).to_set());
            lemma_disconnect_mirrors(cur, hk, Seq::empty(), x, p);
            lemma_replay_push(h0, lost_events(xs.take(k - 1), p), (x, NeighbourEventView::Lost(p)));
        }
    }
}

/// A node the faker removes leaves the graph's view of its neighbours, once the graph
/// processed the events, where the graph did not show the node itself. (A node that
/// had neighbours stays in the graph: the faker reports no event of its own losses.)
pub proof fn lemma_remove_node_mirrored(l: Links, g: Links, q: Events, p: Seq<u8>, xs: Seq<Seq<u8>>)
    requires
        mirrors(l, replay(g, q)),
        symmetric(l),
        l.contains_key(p),
        xs.no_duplicates(),
        xs.to_set() == l[p],
        !replay(g, q).contains_key(p),
    ensures
        mirrors(without_node(l, p), replay(g, q + lost_events(xs, p))),
{
    let h0 = replay(g, q);
    lemma_remove_node_start(l, p);
    assert(xs.take(0).to_set() =~= Set::<Seq<u8>>::empty());
    assert(lost_events(xs.take(0), p) =~= Seq::<(Seq<u8>, NeighbourEventView)>::empty());
    assert(mirrors(l.remove(p), h0)) by {
        assert forall|y: Seq<u8>| #[trigger] h0.contains_key(y) implies l.remove(p).contains_key(y) && h0[y] == l.remove(p)[y] by {
            assert(y != p);
        }
        assert forall|y: Seq<u8>| #[trigger] l.remove(p).contains_key(y) && !l.remove(p)[y].is_empty() implies h0.contains_key(y) by {
            assert(l.contains_key(y) && !l[y].is_empty());
        }
    }
    lemma_remove_node_prefix(l, h0, p, xs, xs.len() as int);
    assert(xs.take(xs.len() as int) =~= xs);
    lemma_remove_node_done(l, p);
    lemma_replay_append(g, q, lost_events(xs, p));
}

} // verus!
