//! The IPv6 addresses of the network interfaces as the kernel reports them: each address
//! that appears is reported up once, each that goes is reported down once.
use std::collections::VecDeque;

use vstd::prelude::*;

verus! {

/// An address of an interface: the interface's index and the IPv6 address as its bits.
#[derive(Debug, Clone, Copy, PartialEq, Eq, Structural)]
pub struct IfAddress {
    pub if_index: u32,
    pub addr: u128,
}

/// An address that appeared or went away.
#[derive(Debug, Clone, Copy, PartialEq, Eq, Structural)]
pub enum IfEvent {
    Up(IfAddress),
    Down(IfAddress),
}

/// The addresses known after the addresses `xs` of interface `idx` were reported new,
/// with the events for those that were not known yet.
pub open spec fn after_new(known: Set<IfAddress>, q: Seq<IfEvent>, idx: u32, xs: Seq<u128>) -> (Set<IfAddress>, Seq<IfEvent>)
    decreases xs.len(),
{
    if xs.len() == 0 {
        (known, q)
    } else {
        let (k1, q1) = after_new(known, q, idx, xs.drop_last());
        let a = IfAddress { if_index: idx, addr: xs.last() };
        if k1.contains(a) {
            (k1, q1)
        } else {
            (k1.insert(a), q1.push(IfEvent::Up(a)))
        }
    }
}

/// The addresses known after the addresses `xs` of interface `idx` were reported gone,
/// with the events for those that were known.
pub open spec fn after_gone(known: Set<IfAddress>, q: Seq<IfEvent>, idx: u32, xs: Seq<u128>) -> (Set<IfAddress>, Seq<IfEvent>)
    decreases xs.len(),
{
    if xs.len() == 0 {
        (known, q)
    } else {
        let (k1, q1) = after_gone(known, q, idx, xs.drop_last());
        let a = IfAddress { if_index: idx, addr: xs.last() };
        if k1.contains(a) {
            (k1.remove(a), q1.push(IfEvent::Down(a)))
        } else {
            (k1, q1)
        }
    }
}

/// The known addresses and the events not yet handed out.
pub struct IfWatcher {
    addrs: Vec<IfAddress>,
    queue: VecDeque<IfEvent>,
}

impl IfWatcher {
    /// The addresses known.
    pub closed spec fn known(&self) -> Set<IfAddress> {
        self.addrs@.to_set()
    }

    /// The events not yet handed out, first one first.
    pub closed spec fn pending(&self) -> Seq<IfEvent> {
        self.queue@
    }

    /// No address is listed twice.
    pub closed spec fn well_formed(&self) -> bool {
        self.addrs@.no_duplicates()
    }

    /// No address known, no event waiting.
    pub fn new() -> (r: IfWatcher)
        ensures
            r.well_formed(),
            r.known() == Set::<IfAddress>::empty(),
            r.pending() == Seq::<IfEvent>::empty(),
    {
        let r = IfWatcher { addrs: Vec::new(), queue: VecDeque::new() };
        assert(r.known() =~= Set::<IfAddress>::empty());
        r
    }

    fn position(&self, a: IfAddress) -> (r: Option<usize>)
        ensures
            match r {
                Some(i) => i < self.addrs@.len() && self.addrs@[i as int] == a,
                None => !self.addrs@.contains(a),
            },
    {
        let mut i: usize = 0;
        while i < self.addrs.len()
            invariant
                i <= self.addrs.len(),
                forall|k: int| 0 <= k < i ==> self.addrs@[k] != a,
            decreases self.addrs.len() - i,
        {
            if self.addrs[i] == a {
                return Some(i);
            }
            i = i + 1;
        }
        None
    }

    /// The kernel reported the addresses `xs` of interface `idx` as new: each that was
    /// not known becomes known and is reported up.
    pub fn add_address(&mut self, idx: u32, xs: &Vec<u128>)
        requires
            old(self).well_formed(),
        ensures
            final(self).well_formed(),
            (final(self).known(), final(self).pending()) == after_new(old(self).known(), old(self).pending(), idx, xs@),
    {
        let mut i: usize = 0;
        while i < xs.len()
            invariant
                self.well_formed(),
                i <= xs.len(),
                (self.known(), self.pending()) == after_new(old(self).known(), old(self).pending(), idx, xs@.take(i as int)),
            decreases xs.len() - i,
        {
            let a = IfAddress { if_index: idx, addr: xs[i] };
            assert(xs@.take(i + 1).drop_last() =~= xs@.take(i as int));
            assert(xs@.take(i + 1).last() == xs@[i as int]);
            if self.position(a).is_none() {
                let ghost before = self.addrs@;
                self.addrs.push(a);
                self.queue.push_back(IfEvent::Up(a));
                proof {
                    assert forall|x: int, y: int| 0 <= x < self.addrs@.len() && 0 <= y < self.addrs@.len() && x != y implies self.addrs@[x] != self.addrs@[y] by {
                        if x < before.len() && y < before.len() {
                        } else if x < before.len() {
                            assert(before.contains(before[x]));
                        } else if y < before.len() {
                            assert(before.contains(before[y]));
                        }
                    }
                    assert(self.addrs@.to_set() =~= before.to_set().insert(a)) by {
                        assert(self.addrs@ == before.push(a));
                        assert forall|z: IfAddress| self.addrs@.contains(z) <==> (before.contains(z) || z == a) by {
                            if self.addrs@.contains(z) {
                                let k = choose|k: int| 0 <= k < self.addrs@.len() && self.addrs@[k] == z;
                                if k < before.len() {
                                    assert(before[k] == z);
                                }
                            }
                            if before.contains(z) {
                                let k = choose|k: int| 0 <= k < before.len() && before[k] == z;
                                assert(self.addrs@[k] == z);
                            }
                            if z == a {
                                assert(self.addrs@[before.len() as int] == a);
                            }
                        }
                    }
                }
            } else {
                proof {
                    let k = choose|k: int| 0 <= k < self.addrs@.len() && self.addrs@[k] == a;
                    assert(self.addrs@.contains(a));
                }
            }
            i = i + 1;
        }
        assert(xs@.take(i as int) =~= xs@);
    }

    /// The kernel reported the addresses `xs` of interface `idx` as gone: each that was
    /// known is forgotten and reported down.
    pub fn rem_address(&mut self, idx: u32, xs: &Vec<u128>)
        requires
            old(self).well_formed(),
        ensures
            final(self).well_formed(),
            (final(self).known(), final(self).pending()) == after_gone(old(self).known(), old(self).pending(), idx, xs@),
    {
        let mut i: usize = 0;
        while i < xs.len()
            invariant
                self.well_formed(),
                i <= xs.len(),
                (self.known(), self.pending()) == after_gone(old(self).known(), old(self).pending(), idx, xs@.take(i as int)),
            decreases xs.len() - i,
        {
            let a = IfAddress { if_index: idx, addr: xs[i] };
            assert(xs@.take(i + 1).drop_last() =~= xs@.take(i as int));
            assert(xs@.take(i + 1).last() == xs@[i as int]);
            match self.position(a) {
                Some(k) => {
                    let ghost before = self.addrs@;
                    let _ = self.addrs.remove(k);
                    self.queue.push_back(IfEvent::Down(a));
                    proof {
                        assert(self.addrs@ == before.remove(k as int));
                        assert forall|x: int| 0 <= x < self.addrs@.len() implies #[trigger] self.addrs@[x] == before[if x < k { x } else { x + 1 }] by {}
                        assert forall|x: int, y: int| 0 <= x < self.addrs@.len() && 0 <= y < self.addrs@.len() && x != y implies self.addrs@[x] != self.addrs@[y] by {
                            let x2 = if x < k { x } else { x + 1 };
                            let y2 = if y < k { y } else { y + 1 };
                            assert(self.addrs@[x] == before[x2] && self.addrs@[y] == before[y2]);
                        }
                        assert(self.addrs@.to_set() =~= before.to_set().remove(a)) by {
                            assert forall|z: IfAddress| self.addrs@.contains(z) <==> (before.contains(z) && z != a) by {
                                if self.addrs@.contains(z) {
                                    let j = choose|j: int| 0 <= j < self.addrs@.len() && self.addrs@[j] == z;
                                    let j2 = if j < k { j } else { j + 1 };
                                    assert(self.addrs@[j] == before[j2]);
                                    assert(j2 != k);
                                }
                                if before.contains(z) && z != a {
                                    let j = choose|j: int| 0 <= j < before.len() && before[j] == z;
                                    if j < k {
                                        assert(self.addrs@[j] == z);
                                    } else {
                                        assert(j != k);
                                        assert(self.addrs@[j - 1] == z);
                                    }
                                }
                            }
                        }
                        assert(before.contains(a));
                    }
                },
                None => {},
            }
            i = i + 1;
        }
        assert(xs@.take(i as int) =~= xs@);
    }

    /// The oldest event not yet handed out, if any.
    pub fn next_event(&mut self) -> (r: Option<IfEvent>)
        ensures
            final(self).known() == old(self).known(),
            final(self).well_formed() == old(self).well_formed(),
            old(self).pending().len() > 0 ==> r == Some(old(self).pending()[0]) && final(self).pending() == old(self).pending().drop_first(),
            old(self).pending().len() == 0 ==> r is None && final(self).pending() == old(self).pending(),
    {
        let r = self.queue.pop_front();
        assert(self.pending() =~= old(self).pending().drop_first() || old(self).pending().len() == 0);
        r
    }
}

proof fn lemma_seq_push_to_set<A>(s: Seq<A>, x: A)
    ensures
        s.push(x).to_set() == s.to_set().insert(x),
{
    let t = s.push(x);
    assert forall|y: A| t.contains(y) <==> (s.contains(y) || y == x) by {
        if t.contains(y) {
            let k = choose|k: int| 0 <= k < t.len() && t[k] == y;
            if k < s.len() {
                assert(s[k] == y);
            }
        }
        if s.contains(y) {
            let k = choose|k: int| 0 <= k < s.len() && s[k] == y;
            assert(t[k] == y);
        }
        if y == x {
            assert(t[s.len() as int] == y);
        }
    }
    assert(t.to_set() =~= s.to_set().insert(x));
}

/// Waiting for the interfaces to listen on: the indices of those not up yet, and the
/// first address of each that came up.
pub struct ListenWaiter {
    pending: Vec<u32>,
    found: Vec<IfAddress>,
}

impl ListenWaiter {
    /// The indices of the interfaces not up yet.
    pub closed spec fn waiting(&self) -> Set<u32> {
        self.pending@.to_set()
    }

    /// The addresses to listen on so far, in the order they came up.
    pub closed spec fn listen_addrs(&self) -> Seq<IfAddress> {
        self.found@
    }

    /// Waiting for every interface in `indices`.
    pub fn new(indices: &Vec<u32>) -> (r: ListenWaiter)
        ensures
            r.waiting() == indices@.to_set(),
            r.listen_addrs() == Seq::<IfAddress>::empty(),
    {
        let mut pending: Vec<u32> = Vec::new();
        let mut i: usize = 0;
        while i < indices.len()
            invariant
                i <= indices.len(),
                pending@.to_set() == indices@.take(i as int).to_set(),
            decreases indices.len() - i,
        {
            let ghost before = pending@;
            pending.push(indices[i]);
            proof {
                assert(indices@.take(i + 1) =~= indices@.take(i as int).push(indices@[i as int]));
                lemma_seq_push_to_set(before, indices@[i as int]);
                lemma_seq_push_to_set(indices@.take(i as int), indices@[i as int]);
            }
            i = i + 1;
        }
        assert(indices@.take(i as int) =~= indices@);
        ListenWaiter { pending, found: Vec::new() }
    }

    /// An address came up or went: the first address of an awaited interface is kept to
    /// listen on, and that interface is no longer awaited.
    pub fn on_event(&mut self, event: IfEvent)
        ensures
            match event {
                IfEvent::Up(a) => if old(self).waiting().contains(a.if_index) {
                    &&& final(self).waiting() == old(self).waiting().remove(a.if_index)
                    &&& final(self).listen_addrs() == old(self).listen_addrs().push(a)
                } else {
                    &&& final(self).waiting() == old(self).waiting()
                    &&& final(self).listen_addrs() == old(self).listen_addrs()
                },
                IfEvent::Down(_) => {
                    &&& final(self).waiting() == old(self).waiting()
                    &&& final(self).listen_addrs() == old(self).listen_addrs()
                },
            },
    {
        if let IfEvent::Up(a) = event {
            let ghost before = self.pending@;
            let mut kept: Vec<u32> = Vec::new();
            let mut hit = false;
            let mut i: usize = 0;
            while i < self.pending.len()
                invariant
                    before == self.pending@,
                    i <= self.pending.len(),
                    kept@.to_set() == before.take(i as int).to_set().remove(a.if_index),
                    hit == before.take(i as int).contains(a.if_index),
                decreases self.pending.len() - i,
            {
                let x = self.pending[i];
                let ghost k0 = kept@;
                proof {
                    assert(before.take(i + 1) =~= before.take(i as int).push(x));
                    lemma_seq_push_to_set(before.take(i as int), x);
                    assert(before.take(i + 1).to_set().contains(a.if_index) == (before.take(i as int).to_set().contains(a.if_index) || x == a.if_index));
                }
                if x == a.if_index {
                    hit = true;
                    assert(kept@.to_set() =~= before.take(i + 1).to_set().remove(a.if_index));
                } else {
                    kept.push(x);
                    proof {
                        lemma_seq_push_to_set(k0, x);
                        assert(kept@.to_set() =~= before.take(i + 1).to_set().remove(a.if_index));
                    }
                }
                i = i + 1;
            }
            assert(before.take(i as int) =~= before);
            if hit {
                self.pending = kept;
                self.found.push(a);
            } else {
                assert(!before.to_set().contains(a.if_index));
            }
        }
    }

    /// Whether every awaited interface is up.
    pub fn is_done(&self) -> (r: bool)
        ensures
            r == (self.waiting() == Set::<u32>::empty()),
    {
        let r = self.pending.len() == 0;
        proof {
            if r {
                assert(self.pending@.to_set() =~= Set::<u32>::empty());
            } else {
                assert(self.pending@.to_set().contains(self.pending@[0]));
            }
        }
        r
    }

    /// The addresses to listen on, in the order they came up.
    pub fn into_listen_addrs(self) -> (r: Vec<IfAddress>)
        ensures
            r@ == self.listen_addrs(),
    {
        self.found
    }
}

/// An address reported new and then gone is no longer known, and both reports are
/// handed out, when it was not known before.
pub proof fn lemma_up_then_down(known: Set<IfAddress>, q: Seq<IfEvent>, idx: u32, addr: u128)
    requires
        !known.contains(IfAddress { if_index: idx, addr }),
    ensures
        ({
            let (k1, q1) = after_new(known, q, idx, seq![addr]);
            let (k2, q2) = after_gone(k1, q1, idx, seq![addr]);
            &&& k2 == known
            &&& q2 == q.push(IfEvent::Up(IfAddress { if_index: idx, addr })).push(IfEvent::Down(IfAddress { if_index: idx, addr }))
        }),
{
    let a = IfAddress { if_index: idx, addr };
    assert(seq![addr].drop_last() =~= Seq::<u128>::empty());
    assert(seq![addr].last() == addr);
    assert(after_new(known, q, idx, Seq::<u128>::empty()) == (known, q));
    assert(after_new(known, q, idx, seq![addr]) == (known.insert(a), q.push(IfEvent::Up(a))));
    let k1 = known.insert(a);
    let q1 = q.push(IfEvent::Up(a));
    assert(after_gone(k1, q1, idx, Seq::<u128>::empty()) == (k1, q1));
    assert(k1.contains(a));
    assert(after_gone(k1, q1, idx, seq![addr]) == (k1.remove(a), q1.push(IfEvent::Down(a))));
    assert(known.insert(a).remove(a) =~= known);
}

} // verus!
