//! The mesh topology as seen from the debug events of all nodes: which node has which
//! neighbours.
use vstd::prelude::*;

verus! {

/// A peer, by the bytes of its identity.
pub type PeerBytes = Vec<u8>;

/// What a node reported about its neighbours.
pub enum NeighbourEvent {
    /// The node's neighbours when it began reporting.
    Init(Vec<PeerBytes>),
    /// The node lost a neighbour.
    Lost(PeerBytes),
    /// The node discovered a neighbour.
    Discovered(PeerBytes),
}

/// A neighbour event and the node that reported it.
pub struct MeshTopologyEvent {
    pub peer_id: PeerBytes,
    pub event: NeighbourEvent,
}

/// A neighbour event by the bytes of the peers it names.
pub enum NeighbourEventView {
    Init(Seq<Seq<u8>>),
    Lost(Seq<u8>),
    Discovered(Seq<u8>),
}

impl View for MeshTopologyEvent {
    type V = (Seq<u8>, NeighbourEventView);

    open spec fn view(&self) -> (Seq<u8>, NeighbourEventView) {
        (self.peer_id@, match self.event {
            NeighbourEvent::Init(ns) => NeighbourEventView::Init(peer_views(ns@)),
            NeighbourEvent::Lost(n) => NeighbourEventView::Lost(n@),
            NeighbourEvent::Discovered(n) => NeighbourEventView::Discovered(n@),
        })
    }
}

/// The graph exported to viewers: its nodes, and its links between nodes.
pub struct ExportGraph {
    pub nodes: Vec<PeerBytes>,
    pub links: Vec<(PeerBytes, PeerBytes)>,
}

/// The mesh: for each node that reported, its neighbours.
pub struct Graph {
    nodes: Vec<(PeerBytes, Vec<PeerBytes>)>,
}

/// The abstract entries: each node with its neighbours.
pub type Entries = Seq<(Seq<u8>, Seq<Seq<u8>>)>;

pub open spec fn entries_of(v: Seq<(PeerBytes, Vec<PeerBytes>)>) -> Entries {
    v.map_values(|e: (PeerBytes, Vec<PeerBytes>)| (e.0@, e.1@.map_values(|p: PeerBytes| p@)))
}

/// No node appears twice, and no node lists a neighbour twice.
pub open spec fn entries_wf(s: Entries) -> bool {
    &&& forall|i: int, j: int| 0 <= i < s.len() && 0 <= j < s.len() && i != j ==> #[trigger] s[i].0 != #[trigger] s[j].0
    &&& forall|i: int| 0 <= i < s.len() ==> (#[trigger] s[i]).1.no_duplicates()
}

pub open spec fn has_key(s: Entries, k: Seq<u8>) -> bool {
    exists|i: int| 0 <= i < s.len() && (#[trigger] s[i]).0 == k
}

pub open spec fn key_index(s: Entries, k: Seq<u8>) -> int {
    choose|i: int| 0 <= i < s.len() && (#[trigger] s[i]).0 == k
}

/// The entries as a map from each node to the set of its neighbours.
pub open spec fn entries_map(s: Entries) -> Map<Seq<u8>, Set<Seq<u8>>> {
    Map::new(|k: Seq<u8>| has_key(s, k), |k: Seq<u8>| s[key_index(s, k)].1.to_set())
}

/// The neighbours that a node has in the map, none where it is absent.
pub open spec fn neighbours_in(m: Map<Seq<u8>, Set<Seq<u8>>>, k: Seq<u8>) -> Set<Seq<u8>> {
    if m.contains_key(k) { m[k] } else { Set::empty() }
}

/// The links of the graph: from each node to each of its neighbours that is itself a
/// node of the graph.
pub open spec fn links_of(m: Map<Seq<u8>, Set<Seq<u8>>>) -> Set<(Seq<u8>, Seq<u8>)> {
    Set::new(|l: (Seq<u8>, Seq<u8>)| m.contains_key(l.0) && m[l.0].contains(l.1) && m.contains_key(l.1))
}

pub(crate) proof fn lemma_key_index(s: Entries, i: int)
    requires
        entries_wf(s),
        0 <= i < s.len(),
    ensures
        has_key(s, s[i].0),
        key_index(s, s[i].0) == i,
{
    assert(has_key(s, s[i].0));
}

proof fn lemma_map_update(s: Entries, i: int, nb: Seq<Seq<u8>>)
    requires
        entries_wf(s),
        0 <= i < s.len(),
        nb.no_duplicates(),
    ensures
        entries_wf(s.update(i, (s[i].0, nb))),
        entries_map(s.update(i, (s[i].0, nb))) == entries_map(s).insert(s[i].0, nb.to_set()),
{
    let t = s.update(i, (s[i].0, nb));
    assert forall|a: int, b: int| 0 <= a < t.len() && 0 <= b < t.len() && a != b implies #[trigger] t[a].0 != #[trigger] t[b].0 by {
        assert(t[a].0 == s[a].0);
        assert(t[b].0 == s[b].0);
    }
    assert forall|a: int| 0 <= a < t.len() implies (#[trigger] t[a]).1.no_duplicates() by {
        if a != i {
            assert(t[a] == s[a]);
        }
    }
    assert forall|k: Seq<u8>| has_key(t, k) <==> has_key(s, k) by {
        if has_key(t, k) {
            let a = choose|a: int| 0 <= a < t.len() && (#[trigger] t[a]).0 == k;
            assert(s[a].0 == k);
        }
        if has_key(s, k) {
            let a = choose|a: int| 0 <= a < s.len() && (#[trigger] s[a]).0 == k;
            assert(t[a].0 == k);
        }
    }
    assert forall|k: Seq<u8>| #[trigger] has_key(t, k) implies t[key_index(t, k)].1.to_set() == (if k == s[i].0 { nb.to_set() } else { s[key_index(s, k)].1.to_set() }) by {
        let a = key_index(t, k);
        lemma_key_index(t, a);
        lemma_key_index(s, a);
    }
    assert(entries_map(t) =~= entries_map(s).insert(s[i].0, nb.to_set()));
}

proof fn lemma_map_push(s: Entries, k: Seq<u8>, nb: Seq<Seq<u8>>)
    requires
        entries_wf(s),
        !has_key(s, k),
        nb.no_duplicates(),
    ensures
        entries_wf(s.push((k, nb))),
        entries_map(s.push((k, nb))) == entries_map(s).insert(k, nb.to_set()),
{
    let t = s.push((k, nb));
    assert forall|a: int, b: int| 0 <= a < t.len() && 0 <= b < t.len() && a != b implies #[trigger] t[a].0 != #[trigger] t[b].0 by {
        if a < s.len() && b < s.len() {
            assert(t[a] == s[a] && t[b] == s[b]);
        } else if a < s.len() {
            assert(t[a] == s[a]);
        } else if b < s.len() {
            assert(t[b] == s[b]);
        }
    }
    assert forall|a: int| 0 <= a < t.len() implies (#[trigger] t[a]).1.no_duplicates() by {
        if a < s.len() {
            assert(t[a] == s[a]);
        }
    }
    assert forall|x: Seq<u8>| has_key(t, x) <==> (has_key(s, x) || x == k) by {
        if has_key(t, x) {
            let a = choose|a: int| 0 <= a < t.len() && (#[trigger] t[a]).0 == x;
            if a < s.len() {
                assert(s[a].0 == x);
            }
        }
        if has_key(s, x) {
            let a = choose|a: int| 0 <= a < s.len() && (#[trigger] s[a]).0 == x;
            assert(t[a].0 == x);
        }
        if x == k {
            assert(t[s.len() as int].0 == k);
        }
    }
    assert forall|x: Seq<u8>| #[trigger] has_key(t, x) implies t[key_index(t, x)].1.to_set() == (if x == k { nb.to_set() } else { s[key_index(s, x)].1.to_set() }) by {
        let a = key_index(t, x);
        lemma_key_index(t, a);
        if a < s.len() {
            assert(t[a] == s[a]);
            lemma_key_index(s, a);
        }
    }
    assert(entries_map(t) =~= entries_map(s).insert(k, nb.to_set()));
}

proof fn lemma_map_remove(s: Entries, i: int)
    requires
        entries_wf(s),
        0 <= i < s.len(),
    ensures
        entries_wf(s.remove(i)),
        entries_map(s.remove(i)) == entries_map(s).remove(s[i].0),
{
    let t = s.remove(i);
    assert forall|a: int| 0 <= a < t.len() implies #[trigger] t[a] == s[if a < i { a } else { a + 1 }] by {}
    assert forall|a: int, b: int| 0 <= a < t.len() && 0 <= b < t.len() && a != b implies #[trigger] t[a].0 != #[trigger] t[b].0 by {
        let a2 = if a < i { a } else { a + 1 };
        let b2 = if b < i { b } else { b + 1 };
        assert(t[a] == s[a2] && t[b] == s[b2]);
    }
    assert forall|a: int| 0 <= a < t.len() implies (#[trigger] t[a]).1.no_duplicates() by {
        let a2 = if a < i { a } else { a + 1 };
        assert(t[a] == s[a2]);
    }
    assert forall|x: Seq<u8>| has_key(t, x) <==> (has_key(s, x) && x != s[i].0) by {
        if has_key(t, x) {
            let a = choose|a: int| 0 <= a < t.len() && (#[trigger] t[a]).0 == x;
            let a2 = if a < i { a } else { a + 1 };
            assert(t[a] == s[a2]);
        }
        if has_key(s, x) && x != s[i].0 {
            let a = choose|a: int| 0 <= a < s.len() && (#[trigger] s[a]).0 == x;
            if a < i {
                assert(t[a] == s[a]);
            } else {
                assert(t[a - 1] == s[a]);
            }
        }
    }
    assert forall|x: Seq<u8>| #[trigger] has_key(t, x) implies t[key_index(t, x)].1.to_set() == s[key_index(s, x)].1.to_set() by {
        let a = key_index(t, x);
        lemma_key_index(t, a);
        let a2 = if a < i { a } else { a + 1 };
        assert(t[a] == s[a2]);
        lemma_key_index(s, a2);
    }
    assert(entries_map(t) =~= entries_map(s).remove(s[i].0));
}

pub(crate) fn bytes_eq(a: &Vec<u8>, b: &Vec<u8>) -> (r: bool)
    ensures
        r == (a@ == b@),
{
    if a.len() != b.len() {
        return false;
    }
    let mut i: usize = 0;
    while i < a.len()
        invariant
            a.len() == b.len(),
            i <= a.len(),
            forall|k: int| 0 <= k < i ==> a@[k] == b@[k],
        decreases a.len() - i,
    {
        if a[i] != b[i] {
            return false;
        }
        i = i + 1;
    }
    assert(a@ =~= b@);
    true
}

pub(crate) fn copy_bytes(a: &Vec<u8>) -> (r: Vec<u8>)
    ensures
        r@ == a@,
{
    let mut r: Vec<u8> = Vec::new();
    let mut i: usize = 0;
    while i < a.len()
        invariant
            i <= a.len(),
            r@ == a@.take(i as int),
        decreases a.len() - i,
    {
        r.push(a[i]);
        assert(a@.take(i + 1) =~= a@.take(i as int).push(a@[i as int]));
        i = i + 1;
    }
    assert(a@.take(i as int) =~= a@);
    r
}

/// The position of `p` in a list of peers, if it is there.
pub(crate) fn position(list: &Vec<PeerBytes>, p: &PeerBytes) -> (r: Option<usize>)
    ensures
        match r {
            Some(i) => i < list.len() && list@[i as int]@ == p@,
            None => !list@.map_values(|q: PeerBytes| q@).contains(p@),
        },
{
    let mut i: usize = 0;
    while i < list.len()
        invariant
            i <= list.len(),
            forall|k: int| 0 <= k < i ==> list@[k]@ != p@,
        decreases list.len() - i,
    {
        if bytes_eq(&list[i], p) {
            return Some(i);
        }
        i = i + 1;
    }
    proof {
        let ms = list@.map_values(|q: PeerBytes| q@);
        if ms.contains(p@) {
            let k = choose|k: int| 0 <= k < ms.len() && #[trigger] ms[k] == p@;
            assert(list@[k]@ == p@);
        }
    }
    None
}

pub(crate) proof fn lemma_push_to_set(s: Seq<Seq<u8>>, x: Seq<u8>)
    ensures
        s.push(x).to_set() == s.to_set().insert(x),
{
    let t = s.push(x);
    assert forall|y: Seq<u8>| t.contains(y) <==> (s.contains(y) || y == x) by {
        if t.contains(y) {
            let a = choose|a: int| 0 <= a < t.len() && #[trigger] t[a] == y;
            if a < s.len() {
                assert(s[a] == y);
            }
        }
        if s.contains(y) {
            let a = choose|a: int| 0 <= a < s.len() && #[trigger] s[a] == y;
            assert(t[a] == y);
        }
        if y == x {
            assert(t[s.len() as int] == x);
        }
    }
    assert(t.to_set() =~= s.to_set().insert(x));
}

pub(crate) proof fn lemma_push_set(s: Seq<Seq<u8>>, x: Seq<u8>)
    requires
        s.no_duplicates(),
        !s.contains(x),
    ensures
        s.push(x).no_duplicates(),
        s.push(x).to_set() == s.to_set().insert(x),
{
    assert forall|a: int, b: int| 0 <= a < s.push(x).len() && 0 <= b < s.push(x).len() && a != b implies s.push(x)[a] != s.push(x)[b] by {
        if a < s.len() && b < s.len() {
        } else if a < s.len() {
            assert(s.contains(s[a]));
        } else if b < s.len() {
            assert(s.contains(s[b]));
        }
    }
    assert(s.push(x).to_set() =~= s.to_set().insert(x)) by {
        assert forall|y: Seq<u8>| s.push(x).contains(y) <==> (s.contains(y) || y == x) by {
            if s.push(x).contains(y) {
                let a = choose|a: int| 0 <= a < s.push(x).len() && s.push(x)[a] == y;
                if a < s.len() {
                    assert(s[a] == y);
                }
            }
            if s.contains(y) {
                let a = choose|a: int| 0 <= a < s.len() && s[a] == y;
                assert(s.push(x)[a] == y);
            }
            if y == x {
                assert(s.push(x)[s.len() as int] == x);
            }
        }
    }
}

pub(crate) proof fn lemma_remove_set(s: Seq<Seq<u8>>, i: int)
    requires
        s.no_duplicates(),
        0 <= i < s.len(),
    ensures
        s.remove(i).no_duplicates(),
        s.remove(i).to_set() == s.to_set().remove(s[i]),
{
    let t = s.remove(i);
    assert forall|a: int| 0 <= a < t.len() implies #[trigger] t[a] == s[if a < i { a } else { a + 1 }] by {}
    assert forall|a: int, b: int| 0 <= a < t.len() && 0 <= b < t.len() && a != b implies t[a] != t[b] by {
        let a2 = if a < i { a } else { a + 1 };
        let b2 = if b < i { b } else { b + 1 };
        assert(t[a] == s[a2] && t[b] == s[b2]);
    }
    assert(t.to_set() =~= s.to_set().remove(s[i])) by {
        assert forall|y: Seq<u8>| t.contains(y) <==> (s.contains(y) && y != s[i]) by {
            if t.contains(y) {
                let a = choose|a: int| 0 <= a < t.len() && t[a] == y;
                let a2 = if a < i { a } else { a + 1 };
                assert(t[a] == s[a2]);
            }
            if s.contains(y) && y != s[i] {
                let a = choose|a: int| 0 <= a < s.len() && s[a] == y;
                if a < i {
                    assert(t[a] == y);
                } else {
                    assert(t[a - 1] == y);
                }
            }
        }
    }
}


proof fn lemma_entries_remove_insert(v: Seq<(PeerBytes, Vec<PeerBytes>)>, i: int, e: (PeerBytes, Vec<PeerBytes>))
    requires
        0 <= i < v.len(),
    ensures
        entries_of(v.remove(i).insert(i, e)) == entries_of(v).update(i, (e.0@, e.1@.map_values(|p: PeerBytes| p@))),
{
    assert(entries_of(v.remove(i).insert(i, e)) =~= entries_of(v).update(i, (e.0@, e.1@.map_values(|p: PeerBytes| p@))));
}

/// The neighbours of each node of a list of entries.
pub open spec fn nodes_map(v: Seq<(PeerBytes, Vec<PeerBytes>)>) -> Map<Seq<u8>, Set<Seq<u8>>> {
    entries_map(entries_of(v))
}

/// The position of the entry of `peer`, if it has one.
pub(crate) fn find_entry(nodes: &Vec<(PeerBytes, Vec<PeerBytes>)>, peer: &PeerBytes) -> (r: Option<usize>)
    ensures
        match r {
            Some(i) => i < nodes.len() && entries_of(nodes@)[i as int].0 == peer@,
            None => !has_key(entries_of(nodes@), peer@),
        },
{
    let mut i: usize = 0;
    while i < nodes.len()
        invariant
            i <= nodes.len(),
            forall|k: int| 0 <= k < i ==> entries_of(nodes@)[k].0 != peer@,
        decreases nodes.len() - i,
    {
        if bytes_eq(&nodes[i].0, peer) {
            return Some(i);
        }
        i = i + 1;
    }
    None
}

/// Adds `n` to the neighbours of the entry at position `i`; tells whether it was not
/// there yet.
pub(crate) fn add_neighbour_at(nodes: &mut Vec<(PeerBytes, Vec<PeerBytes>)>, i: usize, n: &PeerBytes) -> (added: bool)
    requires
        entries_wf(entries_of(old(nodes)@)),
        i < old(nodes).len(),
    ensures
        entries_wf(entries_of(final(nodes)@)),
        final(nodes).len() == old(nodes).len(),
        forall|j: int| 0 <= j < old(nodes).len() ==> (#[trigger] entries_of(final(nodes)@)[j]).0 == entries_of(old(nodes)@)[j].0,
        added == !nodes_map(old(nodes)@)[entries_of(old(nodes)@)[i as int].0].contains(n@),
        nodes_map(final(nodes)@) == nodes_map(old(nodes)@).insert(
            entries_of(old(nodes)@)[i as int].0,
            nodes_map(old(nodes)@)[entries_of(old(nodes)@)[i as int].0].insert(n@),
        ),
{
    let ghost s = entries_of(nodes@);
    let ghost m = nodes_map(nodes@);
    proof {
        lemma_key_index(s, i as int);
    }
    match position(&nodes[i].1, n) {
        Some(j) => {
            assert(s[i as int].1[j as int] == n@);
            assert(s[i as int].1.contains(n@));
            assert(m[s[i as int].0].insert(n@) =~= m[s[i as int].0]);
            assert(m.insert(s[i as int].0, m[s[i as int].0]) =~= m);
            false
        },
        None => {
            let (k, mut nb) = nodes.remove(i);
            let ghost old_nb = nb@.map_values(|p: PeerBytes| p@);
            nb.push(copy_bytes(n));
            let ghost new_nb = nb@.map_values(|p: PeerBytes| p@);
            assert(new_nb =~= old_nb.push(n@));
            nodes.insert(i, (k, nb));
            proof {
                lemma_entries_remove_insert(old(nodes)@, i as int, (k, nb));
                lemma_push_set(old_nb, n@);
                lemma_map_update(s, i as int, new_nb);
                assert(!s[i as int].1.to_set().contains(n@));
            }
            true
        },
    }
}

/// Removes `n` from the neighbours of the entry at position `i`, keeping the entry;
/// tells whether it was there.
pub(crate) fn remove_neighbour_at(nodes: &mut Vec<(PeerBytes, Vec<PeerBytes>)>, i: usize, n: &PeerBytes) -> (removed: bool)
    requires
        entries_wf(entries_of(old(nodes)@)),
        i < old(nodes).len(),
    ensures
        entries_wf(entries_of(final(nodes)@)),
        final(nodes).len() == old(nodes).len(),
        forall|j: int| 0 <= j < old(nodes).len() ==> (#[trigger] entries_of(final(nodes)@)[j]).0 == entries_of(old(nodes)@)[j].0,
        removed == nodes_map(old(nodes)@)[entries_of(old(nodes)@)[i as int].0].contains(n@),
        nodes_map(final(nodes)@) == nodes_map(old(nodes)@).insert(
            entries_of(old(nodes)@)[i as int].0,
            nodes_map(old(nodes)@)[entries_of(old(nodes)@)[i as int].0].remove(n@),
        ),
        final(nodes)@[i as int].1.len() == 0 <==> nodes_map(final(nodes)@)[entries_of(old(nodes)@)[i as int].0].is_empty(),
{
    let ghost s = entries_of(nodes@);
    let ghost m = nodes_map(nodes@);
    proof {
        lemma_key_index(s, i as int);
    }
    let (k, mut nb) = nodes.remove(i);
    let ghost old_nb = nb@.map_values(|p: PeerBytes| p@);
    let removed = match position(&nb, n) {
        Some(j) => {
            let _ = nb.remove(j);
            proof {
                assert(nb@.map_values(|p: PeerBytes| p@) =~= old_nb.remove(j as int));
                lemma_remove_set(old_nb, j as int);
                assert(old_nb.to_set().contains(n@));
            }
            true
        },
        None => {
            proof {
                assert(old_nb.to_set().remove(n@) =~= old_nb.to_set());
            }
            false
        },
    };
    let ghost new_nb = nb@.map_values(|p: PeerBytes| p@);
    assert(new_nb.to_set() == old_nb.to_set().remove(n@));
    nodes.insert(i, (k, nb));
    proof {
        lemma_entries_remove_insert(old(nodes)@, i as int, (k, nb));
        lemma_map_update(s, i as int, new_nb);
        if new_nb.len() == 0 {
            assert(new_nb.to_set() =~= Set::<Seq<u8>>::empty());
        } else {
            assert(new_nb.to_set().contains(new_nb[0]));
        }
    }
    removed
}

/// Removes the entry at position `i` and hands it back.
pub(crate) fn remove_entry_at(nodes: &mut Vec<(PeerBytes, Vec<PeerBytes>)>, i: usize) -> (e: (PeerBytes, Vec<PeerBytes>))
    requires
        entries_wf(entries_of(old(nodes)@)),
        i < old(nodes).len(),
    ensures
        entries_wf(entries_of(final(nodes)@)),
        entries_of(final(nodes)@) == entries_of(old(nodes)@).remove(i as int),
        e.0@ == entries_of(old(nodes)@)[i as int].0,
        peer_views(e.1@) == entries_of(old(nodes)@)[i as int].1,
        peer_views(e.1@).no_duplicates(),
        peer_views(e.1@).to_set() == nodes_map(old(nodes)@)[e.0@],
        nodes_map(final(nodes)@) == nodes_map(old(nodes)@).remove(e.0@),
{
    let ghost s = entries_of(nodes@);
    proof {
        lemma_key_index(s, i as int);
        lemma_map_remove(s, i as int);
    }
    let e = nodes.remove(i);
    assert(entries_of(nodes@) =~= s.remove(i as int));
    e
}

/// Adds an entry for `peer`, which has none yet, with the given neighbours.
pub(crate) fn push_entry(nodes: &mut Vec<(PeerBytes, Vec<PeerBytes>)>, peer: PeerBytes, neighbours: Vec<PeerBytes>)
    requires
        entries_wf(entries_of(old(nodes)@)),
        !has_key(entries_of(old(nodes)@), peer@),
        peer_views(neighbours@).no_duplicates(),
    ensures
        entries_wf(entries_of(final(nodes)@)),
        entries_of(final(nodes)@) == entries_of(old(nodes)@).push((peer@, peer_views(neighbours@))),
        nodes_map(final(nodes)@) == nodes_map(old(nodes)@).insert(peer@, peer_views(neighbours@).to_set()),
{
    let ghost s = entries_of(nodes@);
    let ghost nb = peer_views(neighbours@);
    nodes.push((peer, neighbours));
    proof {
        assert(entries_of(nodes@) =~= s.push((peer@, nb)));
        lemma_map_push(s, peer@, nb);
    }
}

/// The mesh after `peer` reported that it discovered `n`.
pub open spec fn after_discovered(m: Map<Seq<u8>, Set<Seq<u8>>>, peer: Seq<u8>, n: Seq<u8>) -> Map<Seq<u8>, Set<Seq<u8>>> {
    m.insert(peer, neighbours_in(m, peer).insert(n))
}

/// The mesh after `peer` reported the neighbours `ns` when it began reporting.
pub open spec fn after_init(m: Map<Seq<u8>, Set<Seq<u8>>>, peer: Seq<u8>, ns: Set<Seq<u8>>) -> Map<Seq<u8>, Set<Seq<u8>>> {
    m.insert(peer, neighbours_in(m, peer).union(ns))
}

/// The mesh after `peer` reported that it lost `n`: a node left without neighbours is
/// dropped.
pub open spec fn after_lost(m: Map<Seq<u8>, Set<Seq<u8>>>, peer: Seq<u8>, n: Seq<u8>) -> Map<Seq<u8>, Set<Seq<u8>>> {
    if !m.contains_key(peer) {
        m
    } else if m[peer].remove(n).is_empty() {
        m.remove(peer)
    } else {
        m.insert(peer, m[peer].remove(n))
    }
}

/// The mesh after an event.
pub open spec fn after_event(m: Map<Seq<u8>, Set<Seq<u8>>>, e: MeshTopologyEvent) -> Map<Seq<u8>, Set<Seq<u8>>> {
    match e.event {
        NeighbourEvent::Init(ns) => after_init(m, e.peer_id@, peer_views(ns@).to_set()),
        NeighbourEvent::Discovered(n) => after_discovered(m, e.peer_id@, n@),
        NeighbourEvent::Lost(n) => after_lost(m, e.peer_id@, n@),
    }
}

/// A node that discovers a neighbour it did not have and then loses it leaves the mesh
/// as it was, unless it was a node without neighbours, which losing drops.
pub proof fn lemma_discover_then_lose(m: Map<Seq<u8>, Set<Seq<u8>>>, peer: Seq<u8>, n: Seq<u8>)
    requires
        !neighbours_in(m, peer).contains(n),
        m.contains_key(peer) ==> !m[peer].is_empty(),
    ensures
        after_lost(after_discovered(m, peer, n), peer, n) == m,
{
    let d = after_discovered(m, peer, n);
    assert(d[peer].remove(n) =~= neighbours_in(m, peer));
    if m.contains_key(peer) {
        assert(m.insert(peer, m[peer]) =~= m);
    } else {
        assert(neighbours_in(m, peer).is_empty());
        assert(d.remove(peer) =~= m);
    }
}

/// Every node of the mesh after a `Discovered` event has a neighbour, if every node had
/// one before.
pub proof fn lemma_discovered_keeps_neighbours(m: Map<Seq<u8>, Set<Seq<u8>>>, peer: Seq<u8>, n: Seq<u8>)
    requires
        forall|k: Seq<u8>| m.contains_key(k) ==> !(#[trigger] m[k]).is_empty(),
    ensures
        forall|k: Seq<u8>| after_discovered(m, peer, n).contains_key(k) ==> !(#[trigger] after_discovered(m, peer, n)[k]).is_empty(),
{
    let d = after_discovered(m, peer, n);
    assert forall|k: Seq<u8>| d.contains_key(k) implies !(#[trigger] d[k]).is_empty() by {
        if k == peer {
            assert(d[k].contains(n));
        } else {
            assert(m[k] == d[k]);
            assert(!m[k].is_empty());
        }
    }
}

/// Every node of the mesh after a `Lost` event has a neighbour, if every node had one
/// before.
pub proof fn lemma_lost_keeps_neighbours(m: Map<Seq<u8>, Set<Seq<u8>>>, peer: Seq<u8>, n: Seq<u8>)
    requires
        forall|k: Seq<u8>| m.contains_key(k) ==> !(#[trigger] m[k]).is_empty(),
    ensures
        forall|k: Seq<u8>| after_lost(m, peer, n).contains_key(k) ==> !(#[trigger] after_lost(m, peer, n)[k]).is_empty(),
{
    let d = after_lost(m, peer, n);
    assert forall|k: Seq<u8>| d.contains_key(k) implies !(#[trigger] d[k]).is_empty() by {
        if k != peer {
            assert(m[k] == d[k]);
            assert(!m[k].is_empty());
        } else {
            assert(m.contains_key(peer));
        }
    }
}

/// The peers of a list, by their bytes.
pub open spec fn peer_views(v: Seq<PeerBytes>) -> Seq<Seq<u8>> {
    v.map_values(|p: PeerBytes| p@)
}

/// The links of a list, by the bytes of their ends.
pub open spec fn link_views(v: Seq<(PeerBytes, PeerBytes)>) -> Seq<(Seq<u8>, Seq<u8>)> {
    v.map_values(|l: (PeerBytes, PeerBytes)| (l.0@, l.1@))
}

/// `l` links the node at position `a` to its neighbour at position `b`, which is itself a
/// node, and that pair comes before `(i, k)` in the order of the entries.
spec fn link_before(s: Entries, i: int, k: int, l: (Seq<u8>, Seq<u8>)) -> bool {
    exists|a: int, b: int|
        0 <= a < s.len() && 0 <= b < s[a].1.len() && (a < i || (a == i && b < k))
            && l == (#[trigger] s[a].0, #[trigger] s[a].1[b]) && has_key(s, s[a].1[b])
}

proof fn lemma_link_step(s: Entries, i: int, k: int, l: (Seq<u8>, Seq<u8>))
    requires
        entries_wf(s),
        0 <= i < s.len(),
        0 <= k < s[i].1.len(),
    ensures
        link_before(s, i, k + 1, l) <==> (link_before(s, i, k, l) || (has_key(s, s[i].1[k]) && l == (s[i].0, s[i].1[k]))),
        has_key(s, s[i].1[k]) ==> !link_before(s, i, k, (s[i].0, s[i].1[k])),
{
    if link_before(s, i, k + 1, l) {
        let (a, b) = choose|a: int, b: int|
            0 <= a < s.len() && 0 <= b < s[a].1.len() && (a < i || (a == i && b < k + 1))
                && l == (#[trigger] s[a].0, #[trigger] s[a].1[b]) && has_key(s, s[a].1[b]);
        if !(a == i && b == k) {
            assert(link_before(s, i, k, l));
        }
    }
    if link_before(s, i, k, l) {
        let (a, b) = choose|a: int, b: int|
            0 <= a < s.len() && 0 <= b < s[a].1.len() && (a < i || (a == i && b < k))
                && l == (#[trigger] s[a].0, #[trigger] s[a].1[b]) && has_key(s, s[a].1[b]);
        assert(link_before(s, i, k + 1, l));
    }
    if has_key(s, s[i].1[k]) && l == (s[i].0, s[i].1[k]) {
        assert(l == (s[i].0, s[i].1[k]));
        assert(link_before(s, i, k + 1, l));
    }
    let ln = (s[i].0, s[i].1[k]);
    if link_before(s, i, k, ln) {
        let (a, b) = choose|a: int, b: int|
            0 <= a < s.len() && 0 <= b < s[a].1.len() && (a < i || (a == i && b < k))
                && ln == (#[trigger] s[a].0, #[trigger] s[a].1[b]) && has_key(s, s[a].1[b]);
        assert(s[a].0 == s[i].0);
        assert(a == i);
        assert(s[i].1[b] == s[i].1[k]);
    }
}

proof fn lemma_link_next_entry(s: Entries, i: int, l: (Seq<u8>, Seq<u8>))
    requires
        0 <= i < s.len(),
    ensures
        link_before(s, i, s[i].1.len() as int, l) == link_before(s, i + 1, 0, l),
{
    if link_before(s, i, s[i].1.len() as int, l) {
        let (a, b) = choose|a: int, b: int|
            0 <= a < s.len() && 0 <= b < s[a].1.len() && (a < i || (a == i && b < s[i].1.len()))
                && l == (#[trigger] s[a].0, #[trigger] s[a].1[b]) && has_key(s, s[a].1[b]);
        assert(link_before(s, i + 1, 0, l));
    }
    if link_before(s, i + 1, 0, l) {
        let (a, b) = choose|a: int, b: int|
            0 <= a < s.len() && 0 <= b < s[a].1.len() && (a < i + 1 || (a == i + 1 && b < 0))
                && l == (#[trigger] s[a].0, #[trigger] s[a].1[b]) && has_key(s, s[a].1[b]);
        assert(link_before(s, i, s[i].1.len() as int, l));
    }
}

proof fn lemma_links_all(s: Entries, l: (Seq<u8>, Seq<u8>))
    requires
        entries_wf(s),
    ensures
        link_before(s, s.len() as int, 0, l) == links_of(entries_map(s)).contains(l),
{
    let m = entries_map(s);
    if link_before(s, s.len() as int, 0, l) {
        let (a, b) = choose|a: int, b: int|
            0 <= a < s.len() && 0 <= b < s[a].1.len() && (a < s.len() || (a == s.len() && b < 0))
                && l == (#[trigger] s[a].0, #[trigger] s[a].1[b]) && has_key(s, s[a].1[b]);
        lemma_key_index(s, a);
        assert(s[a].1.contains(s[a].1[b]));
        assert(m[l.0].contains(l.1));
    }
    if links_of(m).contains(l) {
        let a = key_index(s, l.0);
        lemma_key_index(s, a);
        assert(s[a].1.to_set().contains(l.1));
        let b = choose|b: int| 0 <= b < s[a].1.len() && s[a].1[b] == l.1;
        assert(l == (s[a].0, s[a].1[b]));
        assert(link_before(s, s.len() as int, 0, l));
    }
}

impl View for Graph {
    type V = Map<Seq<u8>, Set<Seq<u8>>>;

    open spec fn view(&self) -> Map<Seq<u8>, Set<Seq<u8>>> {
        entries_map(self.entries())
    }
}

impl Graph {
    pub closed spec fn entries(&self) -> Entries {
        entries_of(self.nodes@)
    }

    /// No node appears twice, and no node lists a neighbour twice.
    pub closed spec fn well_formed(&self) -> bool {
        entries_wf(self.entries())
    }

    /// The graph of no nodes.
    pub fn new() -> (g: Graph)
        ensures
            g.well_formed(),
            g@ == Map::<Seq<u8>, Set<Seq<u8>>>::empty(),
    {
        let g = Graph { nodes: Vec::new() };
        assert(g.entries() =~= Seq::<(Seq<u8>, Seq<Seq<u8>>)>::empty());
        assert(g@ =~= Map::<Seq<u8>, Set<Seq<u8>>>::empty());
        g
    }

    fn find(&self, peer: &PeerBytes) -> (r: Option<usize>)
        ensures
            match r {
                Some(i) => i < self.entries().len() && self.entries()[i as int].0 == peer@,
                None => !has_key(self.entries(), peer@),
            },
    {
        find_entry(&self.nodes, peer)
    }

    /// Adds `n` to the neighbours of the node at position `i`, if it is not there yet.
    fn add_neighbour_at(&mut self, i: usize, n: &PeerBytes)
        requires
            old(self).well_formed(),
            i < old(self).entries().len(),
        ensures
            final(self).well_formed(),
            final(self).entries().len() == old(self).entries().len(),
            final(self).entries()[i as int].0 == old(self).entries()[i as int].0,
            final(self)@ == old(self)@.insert(old(self).entries()[i as int].0, old(self)@[old(self).entries()[i as int].0].insert(n@)),
    {
        let _ = add_neighbour_at(&mut self.nodes, i, n);
    }

    /// The position of `peer`, added without neighbours where it is absent.
    fn entry(&mut self, peer: &PeerBytes) -> (i: usize)
        requires
            old(self).well_formed(),
        ensures
            final(self).well_formed(),
            i < final(self).entries().len(),
            final(self).entries()[i as int].0 == peer@,
            final(self)@ == old(self)@.insert(peer@, neighbours_in(old(self)@, peer@)),
    {
        match self.find(peer) {
            Some(i) => {
                proof {
                    lemma_key_index(self.entries(), i as int);
                    assert(old(self)@.insert(peer@, neighbours_in(old(self)@, peer@)) =~= old(self)@);
                }
                i
            },
            None => {
                let ghost s = self.entries();
                let none: Vec<PeerBytes> = Vec::new();
                assert(none@.map_values(|p: PeerBytes| p@) =~= Seq::<Seq<u8>>::empty());
                self.nodes.push((copy_bytes(peer), none));
                proof {
                    assert(self.entries() =~= s.push((peer@, Seq::<Seq<u8>>::empty())));
                    lemma_map_push(s, peer@, Seq::empty());
                    assert(Seq::<Seq<u8>>::empty().to_set() =~= Set::<Seq<u8>>::empty());
                }
                self.nodes.len() - 1
            },
        }
    }

    /// A node reported that it discovered a neighbour.
    pub fn process_discovered(&mut self, peer_id: &PeerBytes, neighbour: &PeerBytes)
        requires
            old(self).well_formed(),
        ensures
            final(self).well_formed(),
            final(self)@ == after_discovered(old(self)@, peer_id@, neighbour@),
    {
        let i = self.entry(peer_id);
        proof {
            lemma_key_index(self.entries(), i as int);
        }
        self.add_neighbour_at(i, neighbour);
        assert(final(self)@ =~= old(self)@.insert(peer_id@, neighbours_in(old(self)@, peer_id@).insert(neighbour@)));
    }

    /// A node reported its neighbours when it began reporting.
    pub fn process_init(&mut self, peer_id: &PeerBytes, neighbours: &Vec<PeerBytes>)
        requires
            old(self).well_formed(),
        ensures
            final(self).well_formed(),
            final(self)@ == after_init(old(self)@, peer_id@, peer_views(neighbours@).to_set()),
    {
        let i = self.entry(peer_id);
        let ghost base = neighbours_in(old(self)@, peer_id@);
        let ghost ns = neighbours@.map_values(|p: PeerBytes| p@);
        let mut j: usize = 0;
        proof {
            lemma_key_index(self.entries(), i as int);
            assert(ns.take(0).to_set() =~= Set::<Seq<u8>>::empty());
            assert(base.union(Set::<Seq<u8>>::empty()) =~= base);
        }
        while j < neighbours.len()
            invariant
                self.well_formed(),
                j <= neighbours.len(),
                i < self.entries().len(),
                self.entries()[i as int].0 == peer_id@,
                ns == neighbours@.map_values(|p: PeerBytes| p@),
                self@ == old(self)@.insert(peer_id@, base.union(ns.take(j as int).to_set())),
            decreases neighbours.len() - j,
        {
            proof {
                lemma_key_index(self.entries(), i as int);
            }
            let ghost prev = self@;
            self.add_neighbour_at(i, &neighbours[j]);
            proof {
                assert(ns.take(j + 1) =~= ns.take(j as int).push(ns[j as int]));
                lemma_push_to_set(ns.take(j as int), ns[j as int]);
                assert(neighbours@[j as int]@ == ns[j as int]);
                assert(prev[peer_id@] == base.union(ns.take(j as int).to_set()));
                assert(base.union(ns.take(j as int).to_set()).insert(ns[j as int]) =~= base.union(ns.take(j + 1).to_set()));
                assert(self@ =~= old(self)@.insert(peer_id@, base.union(ns.take(j + 1).to_set())));
            }
            j = j + 1;
        }
        assert(ns.take(j as int) =~= ns);
    }

    /// A node reported that it lost a neighbour; a node left without neighbours is
    /// removed.
    pub fn process_lost(&mut self, peer_id: &PeerBytes, neighbour: &PeerBytes)
        requires
            old(self).well_formed(),
        ensures
            final(self).well_formed(),
            final(self)@ == after_lost(old(self)@, peer_id@, neighbour@),
    {
        let i = match self.find(peer_id) {
            Some(i) => i,
            None => {
                return;
            },
        };
        let ghost s = self.entries();
        proof {
            lemma_key_index(s, i as int);
        }
        let (k, mut nb) = self.nodes.remove(i);
        let ghost old_nb = nb@.map_values(|p: PeerBytes| p@);
        match position(&nb, neighbour) {
            Some(j) => {
                let _ = nb.remove(j);
                proof {
                    assert(nb@.map_values(|p: PeerBytes| p@) =~= old_nb.remove(j as int));
                    lemma_remove_set(old_nb, j as int);
                }
            },
            None => {
                proof {
                    assert(old_nb.to_set().remove(neighbour@) =~= old_nb.to_set());
                }
            },
        }
        let ghost new_nb = nb@.map_values(|p: PeerBytes| p@);
        assert(new_nb.to_set() == old_nb.to_set().remove(neighbour@));
        if nb.len() == 0 {
            proof {
                lemma_map_remove(s, i as int);
                assert(self.entries() =~= s.remove(i as int));
                assert(new_nb.to_set() =~= Set::<Seq<u8>>::empty());
            }
        } else {
            self.nodes.insert(i, (k, nb));
            proof {
                lemma_entries_remove_insert(old(self).nodes@, i as int, (k, nb));
                lemma_map_update(s, i as int, new_nb);
                assert(new_nb.contains(new_nb[0]));
                assert(new_nb.to_set().contains(new_nb[0]));
            }
        }
    }

    /// Applies an event to the graph.
    pub fn process_event(&mut self, event: MeshTopologyEvent)
        requires
            old(self).well_formed(),
        ensures
            final(self).well_formed(),
            final(self)@ == after_event(old(self)@, event),
    {
        let MeshTopologyEvent { peer_id, event } = event;
        match event {
            NeighbourEvent::Init(ns) => self.process_init(&peer_id, &ns),
            NeighbourEvent::Lost(n) => self.process_lost(&peer_id, &n),
            NeighbourEvent::Discovered(n) => self.process_discovered(&peer_id, &n),
        }
    }

    /// Adds the links from the node at position `i` to those of its neighbours that are
    /// nodes themselves.
    fn export_links_at(&self, i: usize, links: &mut Vec<(PeerBytes, PeerBytes)>)
        requires
            self.well_formed(),
            i < self.entries().len(),
            link_views(old(links)@).no_duplicates(),
            forall|l: (Seq<u8>, Seq<u8>)| link_views(old(links)@).contains(l) <==> link_before(self.entries(), i as int, 0, l),
        ensures
            link_views(final(links)@).no_duplicates(),
            forall|l: (Seq<u8>, Seq<u8>)| link_views(final(links)@).contains(l) <==> link_before(self.entries(), i + 1, 0, l),
    {
        let ghost s = self.entries();
        let targets = &self.nodes[i].1;
        let mut k: usize = 0;
        while k < targets.len()
            invariant
                self.well_formed(),
                s == self.entries(),
                i < s.len(),
                targets@ == self.nodes@[i as int].1@,
                k <= targets.len(),
                link_views(links@).no_duplicates(),
                forall|l: (Seq<u8>, Seq<u8>)| link_views(links@).contains(l) <==> link_before(s, i as int, k as int, l),
            decreases targets.len() - k,
        {
            assert(s[i as int].1[k as int] == targets@[k as int]@);
            let found = self.find(&targets[k]);
            let ghost before = link_views(links@);
            if found.is_some() {
                proof {
                    lemma_key_index(s, found.unwrap() as int);
                }
                let link = (copy_bytes(&self.nodes[i].0), copy_bytes(&targets[k]));
                links.push(link);
                proof {
                    let ln = (s[i as int].0, s[i as int].1[k as int]);
                    assert(link_views(links@) =~= before.push(ln));
                    lemma_link_step(s, i as int, k as int, ln);
                    assert(!before.contains(ln));
                    assert forall|a: int, b: int| 0 <= a < before.push(ln).len() && 0 <= b < before.push(ln).len() && a != b
                        implies before.push(ln)[a] != before.push(ln)[b] by {
                        if a < before.len() && b < before.len() {
                        } else if a < before.len() {
                            assert(before.contains(before[a]));
                        } else if b < before.len() {
                            assert(before.contains(before[b]));
                        }
                    }
                    assert forall|l: (Seq<u8>, Seq<u8>)| link_views(links@).contains(l) <==> link_before(s, i as int, k + 1, l) by {
                        lemma_link_step(s, i as int, k as int, l);
                        if before.push(ln).contains(l) {
                            let a = choose|a: int| 0 <= a < before.push(ln).len() && before.push(ln)[a] == l;
                            if a < before.len() {
                                assert(before[a] == l);
                            }
                        }
                        if before.contains(l) {
                            let a = choose|a: int| 0 <= a < before.len() && before[a] == l;
                            assert(before.push(ln)[a] == l);
                        }
                        if l == ln {
                            assert(before.push(ln)[before.len() as int] == l);
                        }
                    }
                }
            } else {
                proof {
                    assert forall|l: (Seq<u8>, Seq<u8>)| link_views(links@).contains(l) <==> link_before(s, i as int, k + 1, l) by {
                        lemma_link_step(s, i as int, k as int, l);
                    }
                }
            }
            k = k + 1;
        }
        proof {
            assert forall|l: (Seq<u8>, Seq<u8>)| link_views(links@).contains(l) <==> link_before(s, i + 1, 0, l) by {
                lemma_link_next_entry(s, i as int, l);
            }
        }
    }

    /// The graph for viewers: every node once, and every link from a node to a neighbour
    /// that is a node too, once.
    pub fn export(&self) -> (r: ExportGraph)
        requires
            self.well_formed(),
        ensures
            peer_views(r.nodes@).no_duplicates(),
            peer_views(r.nodes@).to_set() == self@.dom(),
            link_views(r.links@).no_duplicates(),
            link_views(r.links@).to_set() == links_of(self@),
    {
        let ghost s = self.entries();
        let mut nodes: Vec<PeerBytes> = Vec::new();
        let mut links: Vec<(PeerBytes, PeerBytes)> = Vec::new();
        let mut i: usize = 0;
        proof {
            assert forall|l: (Seq<u8>, Seq<u8>)| link_views(links@).contains(l) <==> link_before(s, 0, 0, l) by {
                if link_before(s, 0, 0, l) {
                    let (a, b) = choose|a: int, b: int|
                        0 <= a < s.len() && 0 <= b < s[a].1.len() && (a < 0 || (a == 0 && b < 0))
                            && l == (#[trigger] s[a].0, #[trigger] s[a].1[b]) && has_key(s, s[a].1[b]);
                }
            }
        }
        while i < self.nodes.len()
            invariant
                self.well_formed(),
                s == self.entries(),
                i <= s.len(),
                peer_views(nodes@) =~= s.take(i as int).map_values(|e: (Seq<u8>, Seq<Seq<u8>>)| e.0),
                link_views(links@).no_duplicates(),
                forall|l: (Seq<u8>, Seq<u8>)| link_views(links@).contains(l) <==> link_before(s, i as int, 0, l),
            decreases s.len() - i,
        {
            let ghost before = peer_views(nodes@);
            nodes.push(copy_bytes(&self.nodes[i].0));
            proof {
                assert(peer_views(nodes@) =~= before.push(s[i as int].0));
                assert(s.take(i + 1).map_values(|e: (Seq<u8>, Seq<Seq<u8>>)| e.0)
                    =~= s.take(i as int).map_values(|e: (Seq<u8>, Seq<Seq<u8>>)| e.0).push(s[i as int].0));
            }
            self.export_links_at(i, &mut links);
            i = i + 1;
        }
        proof {
            let nv = peer_views(nodes@);
            assert(s.take(i as int) =~= s);
            assert forall|a: int, b: int| 0 <= a < nv.len() && 0 <= b < nv.len() && a != b implies nv[a] != nv[b] by {
                assert(nv[a] == s[a].0 && nv[b] == s[b].0);
            }
            assert forall|x: Seq<u8>| nv.to_set().contains(x) <==> self@.dom().contains(x) by {
                if nv.contains(x) {
                    let a = choose|a: int| 0 <= a < nv.len() && nv[a] == x;
                    assert(s[a].0 == x);
                }
                if has_key(s, x) {
                    let a = choose|a: int| 0 <= a < s.len() && (#[trigger] s[a]).0 == x;
                    assert(nv[a] == x);
                }
            }
            assert(nv.to_set() =~= self@.dom());
            assert forall|l: (Seq<u8>, Seq<u8>)| link_views(links@).to_set().contains(l) <==> links_of(self@).contains(l) by {
                lemma_links_all(s, l);
            }
            assert(link_views(links@).to_set() =~= links_of(self@));
        }
        ExportGraph { nodes, links }
    }
}

} // verus!
