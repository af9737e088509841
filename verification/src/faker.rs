//! A mesh that changes at random, with made-up messages between its nodes: a stand-in
//! for a real network when trying out a viewer.
use std::collections::VecDeque;

use vstd::prelude::*;

use crate::cid::fresh_ulid;
use crate::debug_events::{
    GossipsubMessage, MessageDebugEvent, MessageDebugEventType, Request, RequestDebugEvent, Response,
    ResponseDebugEvent, ResponseError,
};
use crate::graph::{
    add_neighbour_at, copy_bytes, entries_of, entries_wf, find_entry, has_key, lemma_key_index,
    lemma_push_to_set, nodes_map, peer_views, position, push_entry, remove_entry_at,
    remove_neighbour_at, MeshTopologyEvent, NeighbourEvent, NeighbourEventView, PeerBytes,
};

verus! {

/// What a message will be, once its sender is known.
pub enum MessageChoice {
    /// A request to the sender's neighbour at this position in its list.
    Request { receiver: usize, id: u128, topic: Option<String> },
    /// A message published to a topic.
    GossipSub { topic: String },
}

/// The neighbours of each node.
pub type Links = Map<Seq<u8>, Set<Seq<u8>>>;

/// The neighbour events waiting to be handed out.
pub type Events = Seq<(Seq<u8>, NeighbourEventView)>;

/// Every link goes both ways and ends at a node.
pub open spec fn symmetric(m: Links) -> bool {
    forall|a: Seq<u8>, b: Seq<u8>|
        m.contains_key(a) && #[trigger] m[a].contains(b) ==> m.contains_key(b) && m[b].contains(a)
}

/// Some node has `a` among its neighbours.
pub open spec fn pointed_to(m: Links, a: Seq<u8>) -> bool {
    exists|k: Seq<u8>| m.contains_key(k) && #[trigger] m[k].contains(a)
}

/// `a` links to `b`, and the event says so if the link is new.
pub open spec fn connect_spec(m: Links, q: Events, a: Seq<u8>, b: Seq<u8>) -> (Links, Events) {
    if m[a].contains(b) {
        (m, q)
    } else {
        (m.insert(a, m[a].insert(b)), q.push((a, NeighbourEventView::Discovered(b))))
    }
}

/// `a` drops its link to `b`, the event says so, and `a` leaves if no link is left at it.
pub open spec fn disconnect_spec(m: Links, q: Events, a: Seq<u8>, b: Seq<u8>) -> (Links, Events) {
    let m1 = m.insert(a, m[a].remove(b));
    let q1 = q.push((a, NeighbourEventView::Lost(b)));
    if m1[a].is_empty() && !pointed_to(m1, a) {
        (m1.remove(a), q1)
    } else {
        (m1, q1)
    }
}

/// The neighbours of each node once `p` is gone: its neighbours forget it, and one left
/// with no neighbour goes too.
pub open spec fn without_node(m: Links, p: Seq<u8>) -> Links {
    Map::new(
        |y: Seq<u8>| m.contains_key(y) && y != p && !(m[y].contains(p) && m[y].remove(p).is_empty()),
        |y: Seq<u8>| m[y].remove(p),
    )
}

/// The events of each of `xs`, other than `p`, losing `p`, in order.
pub open spec fn lost_events(xs: Seq<Seq<u8>>, p: Seq<u8>) -> Events
    decreases xs.len(),
{
    if xs.len() == 0 {
        Seq::empty()
    } else if xs.last() == p {
        lost_events(xs.drop_last(), p)
    } else {
        lost_events(xs.drop_last(), p).push((xs.last(), NeighbourEventView::Lost(p)))
    }
}

/// A new node `p` that lists `x`, if there is one, as its neighbour, and that `x`
/// links back to; the new node reports its neighbours first.
pub open spec fn add_node_spec(m: Links, q: Events, p: Seq<u8>, x: Option<Seq<u8>>) -> (Links, Events) {
    match x {
        Some(x) => connect_spec(
            m.insert(p, Set::empty().insert(x)),
            q.push((p, NeighbourEventView::Init(seq![x]))),
            x,
            p,
        ),
        None => (m.insert(p, Set::empty()), q.push((p, NeighbourEventView::Init(Seq::empty())))),
    }
}

/// `a` links to `b`, then `b` to `a`.
pub open spec fn add_link_spec(m: Links, q: Events, a: Seq<u8>, b: Seq<u8>) -> (Links, Events) {
    let (m1, q1) = connect_spec(m, q, a, b);
    connect_spec(m1, q1, b, a)
}

/// `p` drops its link to `x`, then `x` its link to `p` if it still has one.
pub open spec fn remove_link_spec(m: Links, q: Events, p: Seq<u8>, x: Seq<u8>) -> (Links, Events) {
    let (m1, q1) = disconnect_spec(m, q, p, x);
    if m1.contains_key(x) && m1[x].contains(p) {
        disconnect_spec(m1, q1, x, p)
    } else {
        (m1, q1)
    }
}

pub(crate) proof fn lemma_single_to_set(x: Seq<u8>)
    ensures
        seq![x].to_set() == Set::<Seq<u8>>::empty().insert(x),
{
    assert(seq![x][0] == x);
    assert(seq![x].to_set() =~= Set::<Seq<u8>>::empty().insert(x));
}

/// Adding a node next to an existing one keeps every link two-way.
pub proof fn lemma_add_node_symmetric(m: Links, q: Events, p: Seq<u8>, x: Option<Seq<u8>>)
    requires
        symmetric(m),
        !m.contains_key(p),
        x matches Some(x) ==> m.contains_key(x),
    ensures
        symmetric(add_node_spec(m, q, p, x).0),
{
    match x {
        Some(x) => {
            assert(!m[x].contains(p));
            let m2 = add_node_spec(m, q, p, Some(x)).0;
            assert(m2 == m.insert(p, Set::empty().insert(x)).insert(x, m[x].insert(p)));
            assert forall|a: Seq<u8>, b: Seq<u8>| m2.contains_key(a) && #[trigger] m2[a].contains(b) implies m2.contains_key(b) && m2[b].contains(a) by {
                if a == p {
                    assert(b == x);
                } else if a == x {
                    if b != p {
                        assert(m[x].contains(b));
                    }
                } else {
                    assert(m[a].contains(b));
                }
            }
        },
        None => {
            let m2 = add_node_spec(m, q, p, None).0;
            assert forall|a: Seq<u8>, b: Seq<u8>| m2.contains_key(a) && #[trigger] m2[a].contains(b) implies m2.contains_key(b) && m2[b].contains(a) by {
                if a != p {
                    assert(m[a].contains(b));
                }
            }
        },
    }
}

/// Linking two nodes both ways keeps every link two-way.
pub proof fn lemma_add_link_symmetric(m: Links, q: Events, a: Seq<u8>, b: Seq<u8>)
    requires
        symmetric(m),
        m.contains_key(a),
        m.contains_key(b),
    ensures
        symmetric(add_link_spec(m, q, a, b).0),
{
    let m1 = connect_spec(m, q, a, b).0;
    let m2 = add_link_spec(m, q, a, b).0;
    if m[a].contains(b) {
        assert(m[a].insert(b) =~= m[a]);
        assert(m.insert(a, m[a]) =~= m);
    }
    assert(m1 =~= m.insert(a, m[a].insert(b)));
    if m1[b].contains(a) {
        assert(m1[b].insert(a) =~= m1[b]);
        assert(m1.insert(b, m1[b]) =~= m1);
    }
    assert(m2 =~= m1.insert(b, m1[b].insert(a)));
    assert forall|u: Seq<u8>, v: Seq<u8>| m2.contains_key(u) && #[trigger] m2[u].contains(v) implies m2.contains_key(v) && m2[v].contains(u) by {
        if u == b {
            if v != a {
                assert(m1[b].contains(v));
                if b == a {
                    assert(m[a].contains(v));
                } else {
                    assert(m[b].contains(v));
                }
            }
        } else if u == a {
            if v != b {
                assert(m[a].contains(v));
            }
        } else {
            assert(m[u].contains(v));
        }
    }
}

/// The neighbours of each node while `p` is being removed: `p` is gone, and the nodes in
/// `done` have forgotten it, leaving if no neighbour was left.
pub open spec fn partly_without(m: Links, p: Seq<u8>, done: Set<Seq<u8>>) -> Links {
    Map::new(
        |y: Seq<u8>| m.contains_key(y) && y != p && !(done.contains(y) && m[y].remove(p).is_empty()),
        |y: Seq<u8>| if done.contains(y) { m[y].remove(p) } else { m[y] },
    )
}

pub(crate) proof fn lemma_remove_node_start(m: Links, p: Seq<u8>)
    ensures
        partly_without(m, p, Set::empty()) == m.remove(p),
{
    assert(partly_without(m, p, Set::empty()) =~= m.remove(p));
}

pub(crate) proof fn lemma_remove_node_step(m: Links, q: Events, p: Seq<u8>, xs: Seq<Seq<u8>>, k: int)
    requires
        symmetric(m),
        m.contains_key(p),
        xs.no_duplicates(),
        xs.to_set() == m[p],
        0 <= k < xs.len(),
    ensures
        xs.take(k + 1).to_set() == xs.take(k).to_set().insert(xs[k]),
        xs[k] == p ==> !partly_without(m, p, xs.take(k).to_set()).contains_key(p),
        xs[k] == p ==> partly_without(m, p, xs.take(k + 1).to_set()) == partly_without(m, p, xs.take(k).to_set()),
        xs[k] != p ==> partly_without(m, p, xs.take(k).to_set()).contains_key(xs[k]),
        xs[k] != p ==> partly_without(m, p, xs.take(k).to_set())[xs[k]].contains(p),
        xs[k] != p ==> disconnect_spec(partly_without(m, p, xs.take(k).to_set()), q, xs[k], p).0 == partly_without(m, p, xs.take(k + 1).to_set()),
        lost_events(xs.take(k + 1), p) == (if xs[k] == p {
            lost_events(xs.take(k), p)
        } else {
            lost_events(xs.take(k), p).push((xs[k], NeighbourEventView::Lost(p)))
        }),
{
    let d = xs.take(k).to_set();
    let x = xs[k];
    assert(xs.take(k + 1) =~= xs.take(k).push(x));
    lemma_push_to_set(xs.take(k), x);
    assert(xs.take(k + 1).drop_last() =~= xs.take(k));
    let d2 = d.insert(x);
    let cur = partly_without(m, p, d);
    if x == p {
        assert(partly_without(m, p, d2) =~= cur);
    } else {
        assert(xs.contains(x));
        assert(m[p].contains(x));
        assert(!d.contains(x)) by {
            if d.contains(x) {
                let a = choose|a: int| 0 <= a < xs.take(k).len() && xs.take(k)[a] == x;
                assert(xs[a] == xs[k]);
            }
        }
        assert(m.contains_key(x) && m[x].contains(p));
        assert(cur.contains_key(x));
        let m1 = cur.insert(x, cur[x].remove(p));
        assert(m1[x] == m[x].remove(p));
        if m1[x].is_empty() {
            assert(!pointed_to(m1, x)) by {
                if pointed_to(m1, x) {
                    let y = choose|y: Seq<u8>| m1.contains_key(y) && #[trigger] m1[y].contains(x);
                    assert(y != x);
                    assert(cur.contains_key(y));
                    assert(m[y].contains(x));
                    assert(m[x].contains(y));
                    assert(y != p);
                    assert(m[x].remove(p).contains(y));
                }
            }
            assert(m1.remove(x) =~= partly_without(m, p, d2));
        } else {
            assert(m1 =~= partly_without(m, p, d2));
        }
    }
}

pub(crate) proof fn lemma_remove_node_done(m: Links, p: Seq<u8>)
    requires
        symmetric(m),
        m.contains_key(p),
    ensures
        partly_without(m, p, m[p]) == without_node(m, p),
        symmetric(without_node(m, p)),
{
    let w = without_node(m, p);
    assert forall|y: Seq<u8>| #[trigger] m.contains_key(y) && y != p && !m[p].contains(y) implies m[y].remove(p) == m[y] by {
        assert(!m[y].contains(p));
        assert(m[y].remove(p) =~= m[y]);
    }
    assert forall|y: Seq<u8>| m.contains_key(y) && y != p implies (m[p].contains(y) <==> #[trigger] m[y].contains(p)) by {}
    assert(partly_without(m, p, m[p]) =~= w);
    assert forall|a: Seq<u8>, b: Seq<u8>| w.contains_key(a) && #[trigger] w[a].contains(b) implies w.contains_key(b) && w[b].contains(a) by {
        assert(m[a].contains(b));
        assert(b != p);
        assert(m[b].contains(a));
        assert(m[b].remove(p).contains(a));
    }
}

/// Removing a node keeps every link two-way.
pub proof fn lemma_remove_node_symmetric(m: Links, p: Seq<u8>)
    requires
        symmetric(m),
        m.contains_key(p),
    ensures
        symmetric(without_node(m, p)),
{
    lemma_remove_node_done(m, p);
}

/// Removing a link both ways keeps every link two-way.
pub proof fn lemma_remove_link_symmetric(m: Links, q: Events, p: Seq<u8>, x: Seq<u8>)
    requires
        symmetric(m),
        m.contains_key(p),
        m[p].contains(x),
    ensures
        symmetric(remove_link_spec(m, q, p, x).0),
{
    let m1 = m.insert(p, m[p].remove(x));
    let r = remove_link_spec(m, q, p, x).0;
    if x == p {
        if m1[p].is_empty() {
            assert(!pointed_to(m1, p)) by {
                if pointed_to(m1, p) {
                    let y = choose|y: Seq<u8>| m1.contains_key(y) && #[trigger] m1[y].contains(p);
                    assert(y != p);
                    assert(m[y].contains(p));
                    assert(m[p].contains(y));
                    assert(m1[p].contains(y));
                }
            }
            assert(r == m1.remove(p));
        } else {
            assert(r == m1);
        }
        assert forall|a: Seq<u8>, b: Seq<u8>| r.contains_key(a) && #[trigger] r[a].contains(b) implies r.contains_key(b) && r[b].contains(a) by {
            if a == p {
                assert(m[p].contains(b) && b != p);
                assert(m[b].contains(p));
            } else {
                assert(m[a].contains(b));
                assert(m[b].contains(a));
                if b == p {
                    assert(m1[p].contains(a));
                }
            }
        }
    } else {
        assert(m[x].contains(p));
        assert(m1[x].contains(p));
        assert(pointed_to(m1, p));
        let m2 = m1.insert(x, m1[x].remove(p));
        if m2[x].is_empty() {
            assert(!pointed_to(m2, x)) by {
                if pointed_to(m2, x) {
                    let y = choose|y: Seq<u8>| m2.contains_key(y) && #[trigger] m2[y].contains(x);
                    assert(y != x && y != p);
                    assert(m[y].contains(x));
                    assert(m[x].contains(y));
                    assert(m2[x].contains(y));
                }
            }
            assert(r == m2.remove(x));
        } else {
            assert(r == m2);
        }
        assert forall|a: Seq<u8>, b: Seq<u8>| r.contains_key(a) && #[trigger] r[a].contains(b) implies r.contains_key(b) && r[b].contains(a) by {
            if a == p {
                assert(m[p].contains(b) && b != x);
                assert(m[b].contains(p));
                assert(r.contains_key(b));
            } else if a == x {
                assert(m[x].contains(b) && b != p);
                assert(m[b].contains(x));
            } else {
                assert(m[a].contains(b));
                assert(m[b].contains(a));
                if b == x {
                    assert(m2[x].contains(a));
                }
            }
        }
    }
}

/// An ASCII letter or digit.
pub open spec fn is_alphanumeric(c: char) -> bool {
    ('a' <= c && c <= 'z') || ('A' <= c && c <= 'Z') || ('0' <= c && c <= '9')
}

/// Between `lo` and `hi` letters and digits.
pub open spec fn alnum_text(s: Seq<char>, lo: int, hi: int) -> bool {
    &&& lo <= s.len() <= hi
    &&& forall|i: int| 0 <= i < s.len() ==> is_alphanumeric(#[trigger] s[i])
}

/// The code of an ASCII letter or digit.
pub open spec fn is_alphanumeric_byte(b: u8) -> bool {
    (97 <= b && b <= 122) || (65 <= b && b <= 90) || (48 <= b && b <= 57)
}

/// Between `lo` and `hi` codes of ASCII letters and digits.
pub open spec fn alnum_bytes(s: Seq<u8>, lo: int, hi: int) -> bool {
    &&& lo <= s.len() <= hi
    &&& forall|i: int| 0 <= i < s.len() ==> is_alphanumeric_byte(#[trigger] s[i])
}

/// `rand::Rng::gen::<bool>` on the thread's generator: a fair coin, of which nothing is
/// known beforehand.
#[verifier::external_body]
fn coin() -> (r: bool) {
    rand::Rng::gen::<bool>(&mut rand::thread_rng())
}

/// `rand::Rng::gen_ratio`: `true` with probability `numerator / denominator`; it panics
/// on a zero denominator or a numerator above it.
#[verifier::external_body]
fn chance(numerator: u32, denominator: u32) -> (r: bool)
    requires
        0 < denominator,
        numerator <= denominator,
{
    rand::Rng::gen_ratio(&mut rand::thread_rng(), numerator, denominator)
}

/// `rand::Rng::gen_range` over `low..=high`: a number in that range; it panics on an
/// empty range.
#[verifier::external_body]
fn random_in(low: usize, high: usize) -> (r: usize)
    requires
        low <= high,
    ensures
        low <= r <= high,
{
    rand::Rng::gen_range(&mut rand::thread_rng(), low..=high)
}

/// `rand::seq::IteratorRandom::choose` over the positions `0..len`: one of them, and
/// `None` exactly when there is none.
#[verifier::external_body]
fn choose_position(len: usize) -> (r: Option<usize>)
    ensures
        match r {
            Some(i) => i < len,
            None => len == 0,
        },
{
    rand::seq::IteratorRandom::choose(0..len, &mut rand::thread_rng())
}

/// `len` characters sampled from `rand::distributions::Alphanumeric`, which draws ASCII
/// letters and digits.
#[verifier::external_body]
fn random_alphanumeric(len: usize) -> (r: String)
    ensures
        r@.len() == len,
        forall|i: int| 0 <= i < len ==> is_alphanumeric(#[trigger] r@[i]),
{
    rand::Rng::sample_iter(rand::thread_rng(), &rand::distributions::Alphanumeric)
        .take(len)
        .map(char::from)
        .collect()
}

/// One sample of `rand::distributions::WeightedIndex` over four weights: a position
/// whose weight is not zero. Building it fails when every weight is zero, and the sum
/// must fit in a `usize`.
#[verifier::external_body]
fn weighted_pick(weights: [usize; 4]) -> (r: usize)
    requires
        weights[0] + weights[1] + weights[2] + weights[3] > 0,
        weights[0] + weights[1] + weights[2] + weights[3] <= usize::MAX,
    ensures
        r < 4,
        weights[r as int] > 0,
{
    let index = rand::distributions::WeightedIndex::new(weights).unwrap();
    rand::distributions::Distribution::sample(&index, &mut rand::thread_rng())
}

/// `libp2p_identity::PeerId::random`, by its bytes: the identity multihash (code 0,
/// length 32) of 32 random bytes.
#[verifier::external_body]
fn random_peer() -> (r: PeerBytes)
    ensures
        r@.len() == 34,
        r@[0] == 0,
        r@[1] == 32,
{
    libp2p_identity::PeerId::random().to_bytes()
}

/// `String::into_bytes`: the UTF-8 bytes of the string, which for ASCII characters are
/// their codes.
#[verifier::external_body]
fn into_bytes(s: String) -> (r: Vec<u8>)
    ensures
        (forall|i: int| 0 <= i < s@.len() ==> (#[trigger] s@[i]) < 128 as char) ==> r@ == s@.map_values(|c: char| c as u8),
{
    s.into_bytes()
}

/// Letters and digits are ASCII.
proof fn lemma_alnum_ascii(s: Seq<char>)
    requires
        forall|i: int| 0 <= i < s.len() ==> is_alphanumeric(#[trigger] s[i]),
    ensures
        forall|i: int| 0 <= i < s.len() ==> (#[trigger] s[i]) < 128 as char,
{
}

/// The codes of letters and digits are codes of letters and digits.
proof fn lemma_alnum_codes(s: Seq<char>, b: Seq<u8>)
    requires
        forall|i: int| 0 <= i < s.len() ==> is_alphanumeric(#[trigger] s[i]),
        b == s.map_values(|c: char| c as u8),
    ensures
        b.len() == s.len(),
        forall|i: int| 0 <= i < b.len() ==> is_alphanumeric_byte(#[trigger] b[i]),
{
    assert forall|i: int| 0 <= i < b.len() implies is_alphanumeric_byte(#[trigger] b[i]) by {
        assert(is_alphanumeric(s[i]));
        assert(b[i] == s[i] as u8);
    }
}

/// The fake mesh: the links of each node, the neighbour events not yet handed out, and
/// the requests not yet answered.
pub struct FakerOracle {
    links: Vec<(PeerBytes, Vec<PeerBytes>)>,
    queue: VecDeque<MeshTopologyEvent>,
    unanswered_requests: Vec<(u128, PeerBytes)>,
}

impl FakerOracle {
    /// The neighbours of each node.
    pub closed spec fn links(&self) -> Links {
        nodes_map(self.links@)
    }

    /// The nodes, in the order in which random picks number them.
    pub closed spec fn keys(&self) -> Seq<Seq<u8>> {
        entries_of(self.links@).map_values(|e: (Seq<u8>, Seq<Seq<u8>>)| e.0)
    }

    /// The neighbours of the node at position `i`, in the order in which random picks
    /// number them.
    pub closed spec fn neighbour_list(&self, i: int) -> Seq<Seq<u8>> {
        entries_of(self.links@)[i].1
    }

    /// The neighbour events not yet handed out, first one first.
    pub closed spec fn queue(&self) -> Events {
        self.queue@.map_values(|e: MeshTopologyEvent| e@)
    }

    /// The requests not yet answered: each id with the node that received it.
    pub closed spec fn unanswered(&self) -> Seq<(u128, Seq<u8>)> {
        self.unanswered_requests@.map_values(|r: (u128, PeerBytes)| (r.0, r.1@))
    }

    /// `after` holds the same links and waiting events as this oracle.
    pub open spec fn unchanged(self, after: Self) -> bool {
        after.links() == self.links() && after.queue() == self.queue()
    }

    /// `after` is this mesh with the node `p` added next to `x` (alone where `x` is
    /// `None`), where `p` is not a node yet.
    pub open spec fn node_added_with(self, after: Self, p: Seq<u8>, x: Option<Seq<u8>>) -> bool {
        &&& p.len() == 34 && p[0] == 0 && p[1] == 32
        &&& (x is None <==> self.keys().len() == 0)
        &&& (x matches Some(k) ==> self.keys().contains(k))
        &&& (after.links(), after.queue()) == (if self.links().contains_key(p) {
            (self.links(), self.queue())
        } else {
            add_node_spec(self.links(), self.queue(), p, x)
        })
    }

    /// `after` is this mesh with a node of a new random identity (an identity multihash
    /// of 32 bytes) added next to one of its nodes, or alone where it has none.
    pub open spec fn node_added(self, after: Self) -> bool {
        exists|p: Seq<u8>, x: Option<Seq<u8>>| #[trigger] self.node_added_with(after, p, x)
    }

    /// `after` is this mesh with its nodes `a` and `b` linked both ways.
    pub open spec fn link_added_with(self, after: Self, a: Seq<u8>, b: Seq<u8>) -> bool {
        &&& self.keys().contains(a)
        &&& self.keys().contains(b)
        &&& (after.links(), after.queue()) == add_link_spec(self.links(), self.queue(), a, b)
    }

    /// `after` is this mesh with two of its nodes, maybe the same, linked both ways; or,
    /// where it has no node, this mesh.
    pub open spec fn link_added(self, after: Self) -> bool {
        if self.keys().len() == 0 {
            self.unchanged(after)
        } else {
            exists|a: Seq<u8>, b: Seq<u8>| #[trigger] self.link_added_with(after, a, b)
        }
    }

    /// `after` is this mesh without its node at position `i`, with the events of its
    /// neighbours losing it.
    pub open spec fn node_removed_at(self, after: Self, i: int) -> bool {
        &&& 0 <= i < self.keys().len()
        &&& after.links() == without_node(self.links(), self.keys()[i])
        &&& after.queue() == self.queue() + lost_events(self.neighbour_list(i), self.keys()[i])
    }

    /// `after` is this mesh without one of its nodes; or, where it has none, this mesh.
    pub open spec fn node_removed(self, after: Self) -> bool {
        if self.keys().len() == 0 {
            self.unchanged(after)
        } else {
            exists|i: int| #[trigger] self.node_removed_at(after, i)
        }
    }

    /// `after` is this mesh where the node at position `i` dropped its link to its
    /// neighbour at position `j`, both ways.
    pub open spec fn link_removed_at(self, after: Self, i: int, j: int) -> bool {
        &&& 0 <= i < self.keys().len()
        &&& 0 <= j < self.neighbour_list(i).len()
        &&& (after.links(), after.queue()) == remove_link_spec(self.links(), self.queue(), self.keys()[i], self.neighbour_list(i)[j])
    }

    /// `after` is this mesh where one of its nodes picked at position `i` dropped a link
    /// both ways, or this mesh where that node has no neighbour.
    pub open spec fn link_removed_from(self, after: Self, i: int) -> bool {
        &&& 0 <= i < self.keys().len()
        &&& if self.neighbour_list(i).len() == 0 {
            self.unchanged(after)
        } else {
            exists|j: int| #[trigger] self.link_removed_at(after, i, j)
        }
    }

    /// `after` is this mesh where a node dropped one of its links both ways; or this
    /// mesh, where it has no node or the node picked has no neighbour.
    pub open spec fn link_removed(self, after: Self) -> bool {
        if self.keys().len() == 0 {
            self.unchanged(after)
        } else {
            exists|i: int| #[trigger] self.link_removed_from(after, i)
        }
    }

    /// `e` is a made-up message from the node at position `i`, after which this oracle
    /// became `after`: a request of 1 to 100 letters and digits to one of the node's
    /// neighbours, under no topic or one of 4 to 10 letters and digits, that then awaits
    /// its answer; or a publication of 1 to 100 letters and digits to a topic of 4 to 10
    /// letters and digits. The links and the waiting events stay.
    pub open spec fn message_sent(self, after: Self, i: int, e: MessageDebugEvent) -> bool {
        &&& 0 <= i < self.keys().len()
        &&& e.sender@ == self.keys()[i]
        &&& self.unchanged(after)
        &&& match e.event {
            MessageDebugEventType::Request(r) => {
                &&& self.neighbour_list(i).len() > 0
                &&& self.neighbour_list(i).contains(r.receiver@)
                &&& (r.msg.topic matches Some(t) ==> alnum_text(t@, 4, 10))
                &&& alnum_bytes(r.msg.data@, 1, 100)
                &&& after.unanswered() == self.unanswered().push((r.id, r.receiver@))
            },
            MessageDebugEventType::GossipSub(g) => {
                &&& alnum_text(g.topic@, 4, 10)
                &&& alnum_bytes(g.data@, 1, 100)
                &&& after.unanswered() == self.unanswered()
            },
            MessageDebugEventType::Response(_) => false,
        }
    }

    /// `e` answers the awaited request at position `k`, after which this oracle became
    /// `after`: sent by the node that received the request, with 1 to 100 letters and
    /// digits or the script error "Some error message"; the request is awaited no more,
    /// and the links and the waiting events stay.
    pub open spec fn request_answered(self, after: Self, k: int, e: MessageDebugEvent) -> bool {
        &&& 0 <= k < self.unanswered().len()
        &&& e.sender@ == self.unanswered()[k].1
        &&& self.unchanged(after)
        &&& after.unanswered() == self.unanswered().remove(k)
        &&& e.event matches MessageDebugEventType::Response(r) && r.req_id == self.unanswered()[k].0 && (
            (r.response matches Response::Data(d) && alnum_bytes(d@, 1, 100))
            || (r.response matches Response::Error(ResponseError::Script(m)) && m@ == "Some error message"@)
        )
    }

    /// `after` is this oracle with its mesh changed at random: a node or a link added
    /// while it has fewer than a hundred nodes, a node or a link removed while it has one.
    pub open spec fn topology_changed(self, after: Self) -> bool {
        &&& after.unanswered() == self.unanswered()
        &&& (self.keys().len() < 100 && (self.node_added(after) || self.link_added(after)))
            || (self.keys().len() > 0 && (self.node_removed(after) || self.link_removed(after)))
    }

    /// `after` is this oracle after a change of its mesh that reported events, the first
    /// of which is `e` and is no longer waiting.
    pub open spec fn change_reported(self, after: Self, e: (Seq<u8>, NeighbourEventView)) -> bool {
        exists|mid: Self| {
            &&& #[trigger] self.topology_changed(mid)
            &&& mid.queue().len() > 0
            &&& e == mid.queue()[0]
            &&& after.queue() == mid.queue().drop_first()
            &&& after.links() == mid.links()
            &&& after.unanswered() == mid.unanswered()
        }
    }

    /// No node appears twice nor lists a neighbour twice, and every link goes both ways.
    pub closed spec fn well_formed(&self) -> bool {
        &&& entries_wf(entries_of(self.links@))
        &&& symmetric(self.links())
    }

    /// A mesh of no nodes, with nothing to hand out.
    pub fn new() -> (r: FakerOracle)
        ensures
            r.well_formed(),
            r.links() == Map::<Seq<u8>, Set<Seq<u8>>>::empty(),
            r.queue() == Seq::<(Seq<u8>, NeighbourEventView)>::empty(),
            r.unanswered() == Seq::<(u128, Seq<u8>)>::empty(),
    {
        let r = FakerOracle { links: Vec::new(), queue: VecDeque::new(), unanswered_requests: Vec::new() };
        assert(entries_of(r.links@) =~= Seq::<(Seq<u8>, Seq<Seq<u8>>)>::empty());
        assert(r.links() =~= Map::<Seq<u8>, Set<Seq<u8>>>::empty());
        assert(r.queue() =~= Seq::<(Seq<u8>, NeighbourEventView)>::empty());
        assert(r.unanswered() =~= Seq::<(u128, Seq<u8>)>::empty());
        r
    }

    /// Whether some node lists `a` among its neighbours.
    fn points_to(&self, a: &PeerBytes) -> (r: bool)
        requires
            entries_wf(entries_of(self.links@)),
        ensures
            r == pointed_to(self.links(), a@),
    {
        let ghost s = entries_of(self.links@);
        let mut i: usize = 0;
        while i < self.links.len()
            invariant
                s == entries_of(self.links@),
                entries_wf(s),
                i <= self.links.len(),
                forall|k: int| 0 <= k < i ==> !s[k].1.contains(a@),
            decreases self.links.len() - i,
        {
            if let Some(j) = position(&self.links[i].1, a) {
                proof {
                    lemma_key_index(s, i as int);
                    assert(s[i as int].1[j as int] == a@);
                    assert(s[i as int].1.contains(a@));
                    assert(self.links()[s[i as int].0].contains(a@));
                }
                return true;
            }
            proof {
                let ms = self.links@[i as int].1@.map_values(|q: PeerBytes| q@);
                assert(ms == s[i as int].1);
            }
            i = i + 1;
        }
        proof {
            if pointed_to(self.links(), a@) {
                let k = choose|k: Seq<u8>| self.links().contains_key(k) && #[trigger] self.links()[k].contains(a@);
                let ki = choose|ki: int| 0 <= ki < s.len() && (#[trigger] s[ki]).0 == k;
                lemma_key_index(s, ki);
                assert(s[ki].1.to_set().contains(a@));
                assert(s[ki].1.contains(a@));
            }
        }
        false
    }

    /// `a` links to `b`; a new link is reported as discovered by `a`.
    fn connect(&mut self, a: &PeerBytes, b: &PeerBytes)
        requires
            entries_wf(entries_of(old(self).links@)),
            old(self).links().contains_key(a@),
        ensures
            entries_wf(entries_of(final(self).links@)),
            (final(self).links(), final(self).queue()) == connect_spec(old(self).links(), old(self).queue(), a@, b@),
            final(self).keys() == old(self).keys(),
            final(self).unanswered() == old(self).unanswered(),
    {
        let i = match find_entry(&self.links, a) {
            Some(i) => i,
            None => {
                return;
            },
        };
        let ghost q0 = self.queue@;
        if add_neighbour_at(&mut self.links, i, b) {
            self.queue.push_back(MeshTopologyEvent { peer_id: copy_bytes(a), event: NeighbourEvent::Discovered(copy_bytes(b)) });
            assert(self.queue@ =~= q0.push(self.queue@.last()));
            assert(self.queue() =~= old(self).queue().push((a@, NeighbourEventView::Discovered(b@))));
        } else {
            assert(old(self).links()[a@].insert(b@) =~= old(self).links()[a@]);
            assert(old(self).links().insert(a@, old(self).links()[a@].insert(b@)) =~= old(self).links());
        }
        assert(self.keys() =~= old(self).keys());
    }

    /// `a` drops its link to `b`, which it has, and reports it lost; `a` leaves the mesh
    /// if no link is left at it.
    fn disconnect(&mut self, a: &PeerBytes, b: &PeerBytes)
        requires
            entries_wf(entries_of(old(self).links@)),
            old(self).links().contains_key(a@),
            old(self).links()[a@].contains(b@),
        ensures
            entries_wf(entries_of(final(self).links@)),
            (final(self).links(), final(self).queue()) == disconnect_spec(old(self).links(), old(self).queue(), a@, b@),
            final(self).unanswered() == old(self).unanswered(),
    {
        let i = match find_entry(&self.links, a) {
            Some(i) => i,
            None => {
                return;
            },
        };
        let ghost q0 = self.queue@;
        let removed = remove_neighbour_at(&mut self.links, i, b);
        assert(removed);
        self.queue.push_back(MeshTopologyEvent { peer_id: copy_bytes(a), event: NeighbourEvent::Lost(copy_bytes(b)) });
        assert(self.queue@ =~= q0.push(self.queue@.last()));
        assert(self.queue() =~= old(self).queue().push((a@, NeighbourEventView::Lost(b@))));
        assert(entries_of(self.links@)[i as int].0 == a@);
        if self.links[i].1.len() == 0 && !self.points_to(a) {
            let _ = remove_entry_at(&mut self.links, i);
        }
    }

    /// `a` and `b` link to each other.
    fn connect_bidirectional(&mut self, a: &PeerBytes, b: &PeerBytes)
        requires
            entries_wf(entries_of(old(self).links@)),
            old(self).links().contains_key(a@),
            old(self).links().contains_key(b@),
        ensures
            entries_wf(entries_of(final(self).links@)),
            (final(self).links(), final(self).queue()) == add_link_spec(old(self).links(), old(self).queue(), a@, b@),
            final(self).keys() == old(self).keys(),
            final(self).unanswered() == old(self).unanswered(),
    {
        self.connect(a, b);
        self.connect(b, a);
    }

    /// Links the nodes at positions `i` and `j` (the same node if `i == j`) to each
    /// other.
    pub fn add_link_between(&mut self, i: usize, j: usize)
        requires
            old(self).well_formed(),
            i < old(self).keys().len(),
            j < old(self).keys().len(),
        ensures
            final(self).well_formed(),
            (final(self).links(), final(self).queue()) == add_link_spec(old(self).links(), old(self).queue(), old(self).keys()[i as int], old(self).keys()[j as int]),
            final(self).keys() == old(self).keys(),
            final(self).unanswered() == old(self).unanswered(),
    {
        let a = copy_bytes(&self.links[i].0);
        let b = copy_bytes(&self.links[j].0);
        proof {
            lemma_key_index(entries_of(self.links@), i as int);
            lemma_key_index(entries_of(self.links@), j as int);
            lemma_add_link_symmetric(self.links(), self.queue(), a@, b@);
        }
        self.connect_bidirectional(&a, &b);
    }

    /// Adds the node `peer` next to the node at position `pick`, or alone without one;
    /// a `peer` that is a node already changes nothing.
    pub fn add_node_with(&mut self, peer: PeerBytes, pick: Option<usize>)
        requires
            old(self).well_formed(),
            pick matches Some(j) ==> j < old(self).keys().len(),
        ensures
            final(self).well_formed(),
            (final(self).links(), final(self).queue()) == (if old(self).links().contains_key(peer@) {
                (old(self).links(), old(self).queue())
            } else {
                add_node_spec(old(self).links(), old(self).queue(), peer@, match pick {
                    Some(j) => Some(old(self).keys()[j as int]),
                    None => None,
                })
            }),
            final(self).unanswered() == old(self).unanswered(),
    {
        if find_entry(&self.links, &peer).is_some() {
            proof {
                let s = entries_of(self.links@);
                let i = choose|i: int| 0 <= i < s.len() && (#[trigger] s[i]).0 == peer@;
                assert(has_key(s, peer@));
            }
            return;
        }
        let ghost m = self.links();
        let ghost q0 = self.queue@;
        let ghost x: Option<Seq<u8>> = match pick {
            Some(j) => Some(self.keys()[j as int]),
            None => None,
        };
        proof {
            if let Some(j) = pick {
                lemma_key_index(entries_of(self.links@), j as int);
            }
            lemma_add_node_symmetric(m, self.queue(), peer@, x);
        }
        let (listed, reported): (Vec<PeerBytes>, Vec<PeerBytes>) = match pick {
            Some(j) => (vec![copy_bytes(&self.links[j].0)], vec![copy_bytes(&self.links[j].0)]),
            None => (Vec::new(), Vec::new()),
        };
        let init = MeshTopologyEvent { peer_id: copy_bytes(&peer), event: NeighbourEvent::Init(reported) };
        let peer_copy = copy_bytes(&peer);
        proof {
            match pick {
                Some(j) => {
                    assert(peer_views(listed@) =~= seq![self.keys()[j as int]]);
                    lemma_single_to_set(self.keys()[j as int]);
                },
                None => {
                    assert(peer_views(listed@) =~= Seq::<Seq<u8>>::empty());
                    assert(Seq::<Seq<u8>>::empty().to_set() =~= Set::<Seq<u8>>::empty());
                },
            }
        }
        push_entry(&mut self.links, peer_copy, listed);
        self.queue.push_back(init);
        proof {
            assert(self.queue@ =~= q0.push(init));
            match pick {
                Some(j) => {
                    assert(peer_views(reported@) =~= seq![old(self).keys()[j as int]]);
                },
                None => {
                    assert(peer_views(reported@) =~= Seq::<Seq<u8>>::empty());
                },
            }
        }
        if let Some(j) = pick {
            assert(entries_of(self.links@)[j as int] == entries_of(old(self).links@)[j as int]);
            let x = copy_bytes(&self.links[j].0);
            assert(x@ == old(self).keys()[j as int]);
            self.connect(&x, &peer);
        }
        proof {
            assert(self.queue() =~= add_node_spec(m, old(self).queue(), peer@, x).1);
        }
    }

    /// Removes the node at position `i`: each of its neighbours forgets it and reports it
    /// lost, in the order of its list, and a neighbour left without links goes too.
    pub fn remove_node_at(&mut self, i: usize)
        requires
            old(self).well_formed(),
            i < old(self).keys().len(),
        ensures
            final(self).well_formed(),
            final(self).links() == without_node(old(self).links(), old(self).keys()[i as int]),
            final(self).queue() == old(self).queue() + lost_events(old(self).neighbour_list(i as int), old(self).keys()[i as int]),
            final(self).unanswered() == old(self).unanswered(),
    {
        let ghost m0 = self.links();
        let ghost q0 = self.queue();
        proof {
            lemma_key_index(entries_of(self.links@), i as int);
        }
        let (peer, neighbours) = remove_entry_at(&mut self.links, i);
        let ghost p = peer@;
        let ghost xs = peer_views(neighbours@);
        proof {
            lemma_remove_node_start(m0, p);
            assert(xs.take(0).to_set() =~= Set::<Seq<u8>>::empty());
            assert(lost_events(xs.take(0), p) =~= Seq::<(Seq<u8>, NeighbourEventView)>::empty());
            assert(q0 + Seq::<(Seq<u8>, NeighbourEventView)>::empty() =~= q0);
        }
        let mut k: usize = 0;
        while k < neighbours.len()
            invariant
                entries_wf(entries_of(self.links@)),
                symmetric(m0),
                m0.contains_key(p),
                p == peer@,
                xs == peer_views(neighbours@),
                xs.no_duplicates(),
                xs.to_set() == m0[p],
                k <= neighbours.len(),
                self.links() == partly_without(m0, p, xs.take(k as int).to_set()),
                self.queue() == q0 + lost_events(xs.take(k as int), p),
                self.unanswered() == old(self).unanswered(),
            decreases neighbours.len() - k,
        {
            proof {
                lemma_remove_node_step(m0, self.queue(), p, xs, k as int);
            }
            let ghost qk = self.queue();
            let x = &neighbours[k];
            if find_entry(&self.links, x).is_some() {
                self.disconnect(x, &peer);
                assert(self.queue() =~= q0 + lost_events(xs.take(k + 1), p));
            } else {
                assert(xs[k as int] == p);
            }
            k = k + 1;
        }
        proof {
            assert(xs.take(k as int) =~= xs);
            lemma_remove_node_done(m0, p);
        }
    }

    /// Removes the link from the node at position `i` to its neighbour at position `j`
    /// of its list, then the link back if there is one.
    pub fn remove_link_at(&mut self, i: usize, j: usize)
        requires
            old(self).well_formed(),
            i < old(self).keys().len(),
            j < old(self).neighbour_list(i as int).len(),
        ensures
            final(self).well_formed(),
            (final(self).links(), final(self).queue()) == remove_link_spec(old(self).links(), old(self).queue(), old(self).keys()[i as int], old(self).neighbour_list(i as int)[j as int]),
            final(self).unanswered() == old(self).unanswered(),
    {
        proof {
            let s = entries_of(self.links@);
            lemma_key_index(s, i as int);
            assert(s[i as int].1.contains(s[i as int].1[j as int]));
            assert(self.links()[s[i as int].0].contains(s[i as int].1[j as int]));
            lemma_remove_link_symmetric(self.links(), self.queue(), s[i as int].0, s[i as int].1[j as int]);
        }
        let peer = copy_bytes(&self.links[i].0);
        let neighbour = copy_bytes(&self.links[i].1[j]);
        assert(neighbour@ == old(self).neighbour_list(i as int)[j as int]);
        self.disconnect(&peer, &neighbour);
        if let Some(xi) = find_entry(&self.links, &neighbour) {
            let ghost s = entries_of(self.links@);
            proof {
                lemma_key_index(s, xi as int);
            }
            if let Some(pj) = position(&self.links[xi].1, &peer) {
                proof {
                    assert(s[xi as int].1[pj as int] == peer@);
                    assert(s[xi as int].1.contains(peer@));
                }
                self.disconnect(&neighbour, &peer);
            } else {
                proof {
                    assert(!s[xi as int].1.contains(peer@)) by {
                        if s[xi as int].1.contains(peer@) {
                            let a = choose|a: int| 0 <= a < s[xi as int].1.len() && s[xi as int].1[a] == peer@;
                            assert(self.links@[xi as int].1@[a]@ == peer@);
                        }
                    }
                }
            }
        }
    }

    /// Adds a node with a fresh random identity, next to a node picked at random if
    /// there is one.
    fn add_node(&mut self)
        requires
            old(self).well_formed(),
        ensures
            final(self).well_formed(),
            final(self).unanswered() == old(self).unanswered(),
            old(self).node_added(*final(self)),
    {
        let peer = random_peer();
        let pick = choose_position(self.links.len());
        let ghost x = match pick {
            Some(j) => Some(self.keys()[j as int]),
            None => None,
        };
        proof {
            assert(self.keys().len() == self.links@.len());
            if let Some(j) = pick {
                assert(self.keys()[j as int] == x->Some_0);
            }
        }
        self.add_node_with(peer, pick);
        assert(old(self).node_added_with(*self, peer@, x));
    }

    /// Links two nodes picked at random, which may be the same node, to each other.
    fn add_link(&mut self)
        requires
            old(self).well_formed(),
        ensures
            final(self).well_formed(),
            final(self).unanswered() == old(self).unanswered(),
            old(self).link_added(*final(self)),
    {
        proof {
            assert(self.keys().len() == self.links@.len());
        }
        let a = choose_position(self.links.len());
        let b = choose_position(self.links.len());
        if let (Some(a), Some(b)) = (a, b) {
            let ghost ka = self.keys()[a as int];
            let ghost kb = self.keys()[b as int];
            self.add_link_between(a, b);
            assert(old(self).link_added_with(*self, ka, kb));
        }
    }

    /// Removes a node picked at random, if there is one.
    fn remove_node(&mut self)
        requires
            old(self).well_formed(),
        ensures
            final(self).well_formed(),
            final(self).unanswered() == old(self).unanswered(),
            old(self).node_removed(*final(self)),
    {
        proof {
            assert(self.keys().len() == self.links@.len());
        }
        if let Some(i) = choose_position(self.links.len()) {
            self.remove_node_at(i);
            assert(old(self).node_removed_at(*self, i as int));
        }
    }

    /// Removes a link of a node picked at random to one of its neighbours picked at
    /// random, both ways, if the node has a neighbour.
    fn remove_link(&mut self)
        requires
            old(self).well_formed(),
        ensures
            final(self).well_formed(),
            final(self).unanswered() == old(self).unanswered(),
            old(self).link_removed(*final(self)),
    {
        proof {
            assert(self.keys().len() == self.links@.len());
        }
        if let Some(i) = choose_position(self.links.len()) {
            assert(entries_of(self.links@)[i as int].1 == peer_views(self.links@[i as int].1@));
            assert(self.neighbour_list(i as int).len() == self.links@[i as int].1@.len());
            if let Some(j) = choose_position(self.links[i].1.len()) {
                self.remove_link_at(i, j);
                assert(old(self).link_removed_at(*self, i as int, j as int));
            }
            assert(old(self).link_removed_from(*self, i as int));
        }
    }

    /// The node at position `i` sends `data`: as a request to a neighbour, which then
    /// awaits an answer, or published to a topic.
    pub fn message_with(&mut self, i: usize, data: Vec<u8>, choice: MessageChoice) -> (e: MessageDebugEvent)
        requires
            old(self).well_formed(),
            i < old(self).keys().len(),
            choice matches MessageChoice::Request { receiver, .. } ==> receiver < old(self).neighbour_list(i as int).len(),
        ensures
            final(self).well_formed(),
            final(self).links() == old(self).links(),
            final(self).keys() == old(self).keys(),
            final(self).queue() == old(self).queue(),
            e.sender@ == old(self).keys()[i as int],
            match choice {
                MessageChoice::Request { receiver, id, topic } => {
                    &&& e.event matches MessageDebugEventType::Request(r)
                        && r.id == id
                        && r.receiver@ == old(self).neighbour_list(i as int)[receiver as int]
                        && r.msg.data@ == data@
                        && r.msg.topic == topic
                    &&& final(self).unanswered() == old(self).unanswered().push((id, old(self).neighbour_list(i as int)[receiver as int]))
                },
                MessageChoice::GossipSub { topic } => {
                    &&& e.event matches MessageDebugEventType::GossipSub(g) && g.data@ == data@ && g.topic == topic
                    &&& final(self).unanswered() == old(self).unanswered()
                },
            },
    {
        let sender = copy_bytes(&self.links[i].0);
        match choice {
            MessageChoice::Request { receiver, id, topic } => {
                assert(entries_of(self.links@)[i as int].1 == peer_views(self.links@[i as int].1@));
                let to = copy_bytes(&self.links[i].1[receiver]);
                let ghost u0 = self.unanswered_requests@;
                self.unanswered_requests.push((id, copy_bytes(&to)));
                assert(self.unanswered() =~= old(self).unanswered().push((id, to@)));
                MessageDebugEvent {
                    sender,
                    event: MessageDebugEventType::Request(RequestDebugEvent { id, receiver: to, msg: Request { data, topic } }),
                }
            },
            MessageChoice::GossipSub { topic } => {
                MessageDebugEvent { sender, event: MessageDebugEventType::GossipSub(GossipsubMessage { data, topic }) }
            },
        }
    }

    /// The node at position `i` sends a random text of 1 to 100 letters and digits: to a
    /// random neighbour, if it has one, as a request under a random topic nine times in
    /// ten, half of the time; else published to a random topic.
    fn message(&mut self, i: usize) -> (e: MessageDebugEvent)
        requires
            old(self).well_formed(),
            i < old(self).keys().len(),
        ensures
            final(self).well_formed(),
            old(self).message_sent(*final(self), i as int, e),
    {
        let len = random_in(1, 100);
        let text = random_alphanumeric(len);
        proof {
            lemma_alnum_ascii(text@);
        }
        let ghost chars = text@;
        let data = into_bytes(text);
        proof {
            lemma_alnum_codes(chars, data@);
        }
        assert(entries_of(self.links@)[i as int].1 == peer_views(self.links@[i as int].1@));
        let neighbours = self.links[i].1.len();
        let choice = if neighbours > 0 && coin() {
            let receiver = random_in(0, neighbours - 1);
            let id = fresh_ulid();
            let topic = if chance(9, 10) {
                let topic_len = random_in(4, 10);
                Some(random_alphanumeric(topic_len))
            } else {
                None
            };
            MessageChoice::Request { receiver, id, topic }
        } else {
            let topic_len = random_in(4, 10);
            MessageChoice::GossipSub { topic: random_alphanumeric(topic_len) }
        };
        let e = self.message_with(i, data, choice);
        proof {
            if e.event is Request {
                let r = e.event->Request_0;
                assert(old(self).neighbour_list(i as int).contains(r.receiver@));
            }
        }
        e
    }

    /// The answer to the unanswered request at position `k`, sent by the node that
    /// received it.
    pub fn respond_with(&mut self, k: usize, response: Response) -> (e: MessageDebugEvent)
        requires
            old(self).well_formed(),
            k < old(self).unanswered().len(),
        ensures
            final(self).well_formed(),
            final(self).links() == old(self).links(),
            final(self).queue() == old(self).queue(),
            final(self).unanswered() == old(self).unanswered().remove(k as int),
            e.sender@ == old(self).unanswered()[k as int].1,
            e.event matches MessageDebugEventType::Response(r) && r.req_id == old(self).unanswered()[k as int].0 && r.response == response,
    {
        let (req_id, sender) = self.unanswered_requests.remove(k);
        assert(self.unanswered() =~= old(self).unanswered().remove(k as int));
        MessageDebugEvent { sender, event: MessageDebugEventType::Response(ResponseDebugEvent { req_id, response }) }
    }

    /// Changes the mesh at random: adds a node or a link while it has fewer than a
    /// hundred nodes, and removes one, the more likely the more nodes it has.
    fn change_topology(&mut self)
        requires
            old(self).well_formed(),
        ensures
            final(self).well_formed(),
            final(self).unanswered() == old(self).unanswered(),
            (old(self).keys().len() < 100 && (old(self).node_added(*final(self)) || old(self).link_added(*final(self))))
                || (old(self).keys().len() > 0 && (old(self).node_removed(*final(self)) || old(self).link_removed(*final(self)))),
    {
        proof {
            assert(self.keys().len() == self.links@.len());
        }
        let target_size: usize = 100;
        let len = self.links.len();
        let add_weight = target_size.saturating_sub(len);
        let rm_weight = if len < target_size { len } else { target_size };
        let weights: [usize; 4] = [add_weight, add_weight, rm_weight, rm_weight];
        match weighted_pick(weights) {
            0 => self.add_node(),
            1 => self.add_link(),
            2 => self.remove_node(),
            _ => self.remove_link(),
        }
    }

    /// One round: hands out the oldest waiting neighbour event if there is one; else,
    /// half of the time, answers a random unanswered request (half of the time, if there
    /// is one) or sends a message from a random node; else changes the mesh and hands out
    /// the first event that the change reported, or nothing where it reported none.
    pub fn next_round(&mut self) -> (r: Option<Result<MeshTopologyEvent, MessageDebugEvent>>)
        requires
            old(self).well_formed(),
        ensures
            final(self).well_formed(),
            old(self).queue().len() > 0 ==> {
                &&& r matches Some(Ok(e)) && e@ == old(self).queue()[0]
                &&& final(self).queue() == old(self).queue().drop_first()
                &&& final(self).links() == old(self).links()
                &&& final(self).unanswered() == old(self).unanswered()
            },
            old(self).queue().len() == 0 ==> match r {
                None => old(self).topology_changed(*final(self)) && final(self).queue().len() == 0,
                Some(Ok(e)) => old(self).change_reported(*final(self), e@),
                Some(Err(e)) => (exists|k: int| #[trigger] old(self).request_answered(*final(self), k, e))
                    || (exists|i: int| #[trigger] old(self).message_sent(*final(self), i, e)),
            },
    {
        if self.queue.len() > 0 {
            let event = self.queue.pop_front().unwrap();
            assert(self.queue() =~= old(self).queue().drop_first());
            return Some(Ok(event));
        }
        if coin() {
            if self.unanswered_requests.len() > 0 && coin() {
                let k = random_in(0, self.unanswered_requests.len() - 1);
                let response = if coin() {
                    let len = random_in(1, 100);
                    let text = random_alphanumeric(len);
                    proof {
                        lemma_alnum_ascii(text@);
                    }
                    let ghost chars = text@;
                    let data = into_bytes(text);
                    proof {
                        lemma_alnum_codes(chars, data@);
                    }
                    Response::Data(data)
                } else {
                    Response::Error(ResponseError::Script("Some error message".to_owned()))
                };
                let e = self.respond_with(k, response);
                assert(old(self).request_answered(*self, k as int, e));
                return Some(Err(e));
            } else if let Some(i) = choose_position(self.links.len()) {
                proof {
                    assert(self.keys().len() == self.links@.len());
                }
                let e = self.message(i);
                assert(old(self).message_sent(*self, i as int, e));
                return Some(Err(e));
            }
        }
        self.change_topology();
        let ghost mid = *self;
        if self.queue.len() > 0 {
            let event = self.queue.pop_front().unwrap();
            assert(self.queue() =~= mid.queue().drop_first());
            assert(old(self).topology_changed(mid));
            return Some(Ok(event));
        }
        None
    }
}

impl Default for FakerOracle {
    /// A mesh of no nodes, with nothing to hand out.
    fn default() -> (r: FakerOracle)
        ensures
            r.well_formed(),
            r.links() == Map::<Seq<u8>, Set<Seq<u8>>>::empty(),
            r.queue() == Seq::<(Seq<u8>, NeighbourEventView)>::empty(),
            r.unanswered() == Seq::<(u128, Seq<u8>)>::empty(),
    {
        FakerOracle::new()
    }
}

} // verus!
