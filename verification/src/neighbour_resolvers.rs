//! Which network interfaces get a neighbour resolver in the mesh behaviour: one per
//! interface that has an address of its own to listen on, none for the mesh interface
//! itself or the loopback address; interfaces that have no listen address yet wait until
//! the listen addresses change. Also the grouping of newly discovered neighbours by the
//! interface they were seen on, and the addresses dialled to reach a resolved neighbour.
use vstd::prelude::*;

use crate::graph::{bytes_eq, copy_bytes};
use crate::ifwatcher::IfAddress;

verus! {

/// The IPv6 loopback address `::1`, as its bits.
pub const LOOPBACK: u128 = 1;

/// Whether an address that came up gets a resolver: not on the mesh interface, and not
/// the loopback address.
pub open spec fn wants_resolver(batman_if_index: u32, addr: IfAddress) -> bool {
    addr.if_index != batman_if_index && addr.addr != LOOPBACK
}

/// The resolvers by interface index, and the addresses waiting for a listen address.
pub struct ResolverState {
    pub resolvers: Map<u32, IfAddress>,
    pub pending: Set<IfAddress>,
}

/// What to do for an address that should get a resolver.
#[derive(Debug, Clone, Copy, PartialEq, Eq, Structural)]
pub enum AddResolver {
    /// Its interface has a resolver already.
    Running,
    /// Start a resolver that listens on the listen address at this position.
    Start(usize),
    /// No listen address is on its interface yet: it waits.
    Wait,
}

/// The first position of the listen addresses on interface `if_index` (`None` for one
/// that is on no interface), if there is one.
pub open spec fn first_on_interface(listen: Seq<Option<u32>>, if_index: u32) -> Option<int> {
    if exists|i: int| 0 <= i < listen.len() && listen[i] == Some(if_index) {
        Some(choose|i: int| 0 <= i < listen.len() && listen[i] == Some(if_index)
            && forall|j: int| 0 <= j < i ==> listen[j] != Some(if_index))
    } else {
        None
    }
}

/// The first position of a listen address on interface `if_index`, if there is one.
pub fn position_on_interface(listen: &Vec<Option<u32>>, if_index: u32) -> (r: Option<usize>)
    ensures
        match r {
            Some(i) => first_on_interface(listen@, if_index) == Some(i as int),
            None => first_on_interface(listen@, if_index) is None,
        },
{
    let mut i: usize = 0;
    while i < listen.len()
        invariant
            i <= listen.len(),
            forall|j: int| 0 <= j < i ==> listen@[j] != Some(if_index),
        decreases listen.len() - i,
    {
        if listen[i] == Some(if_index) {
            proof {
                let w = i as int;
                assert(0 <= w < listen@.len() && listen@[w] == Some(if_index));
                let c = choose|c: int| 0 <= c < listen@.len() && listen@[c] == Some(if_index)
                    && forall|j: int| 0 <= j < c ==> listen@[j] != Some(if_index);
                assert(0 <= w < listen@.len() && listen@[w] == Some(if_index)
                    && forall|j: int| 0 <= j < w ==> listen@[j] != Some(if_index));
                if c < w {
                } else if c > w {
                    assert(listen@[w] != Some(if_index));
                }
            }
            return Some(i);
        }
        i = i + 1;
    }
    None
}

/// An interface's resolver, or its waiting address, lasts until its address goes down:
/// after an address got a resolver (or waits) and then goes down, the interfaces with
/// resolvers and the waiting addresses are those there were before, less that one.
pub proof fn lemma_up_then_down(s: ResolverState, addr: IfAddress)
    ensures
        s.resolvers.insert(addr.if_index, addr).remove(addr.if_index) == s.resolvers.remove(addr.if_index),
        s.pending.insert(addr).remove(addr) == s.pending.remove(addr),
{
    assert(s.resolvers.insert(addr.if_index, addr).remove(addr.if_index) =~= s.resolvers.remove(addr.if_index));
    assert(s.pending.insert(addr).remove(addr) =~= s.pending.remove(addr));
}

/// The resolvers of the interfaces, and the addresses that wait for a listen address.
pub struct ResolverRegistry {
    batman_if_index: u32,
    resolvers: Vec<IfAddress>,
    pending: Vec<IfAddress>,
}

/// The resolvers as a map from interface index to the address they were started for.
pub open spec fn resolver_map(s: Seq<IfAddress>) -> Map<u32, IfAddress> {
    Map::new(
        |k: u32| exists|i: int| 0 <= i < s.len() && s[i].if_index == k,
        |k: u32| s[choose|i: int| 0 <= i < s.len() && s[i].if_index == k],
    )
}

/// No interface has two resolvers.
pub open spec fn distinct_interfaces(s: Seq<IfAddress>) -> bool {
    forall|i: int, j: int| 0 <= i < s.len() && 0 <= j < s.len() && #[trigger] s[i].if_index == #[trigger] s[j].if_index ==> i == j
}

proof fn lemma_resolver_at(s: Seq<IfAddress>, i: int)
    requires
        distinct_interfaces(s),
        0 <= i < s.len(),
    ensures
        resolver_map(s).contains_key(s[i].if_index),
        resolver_map(s)[s[i].if_index] == s[i],
{
    let k = s[i].if_index;
    let j = choose|j: int| 0 <= j < s.len() && s[j].if_index == k;
    assert(s[j].if_index == k);
}

proof fn lemma_resolver_remove(s: Seq<IfAddress>, i: int)
    requires
        distinct_interfaces(s),
        0 <= i < s.len(),
    ensures
        distinct_interfaces(s.remove(i)),
        resolver_map(s.remove(i)) == resolver_map(s).remove(s[i].if_index),
{
    let t = s.remove(i);
    let k0 = s[i].if_index;
    assert forall|a: int, b: int| 0 <= a < t.len() && 0 <= b < t.len() && #[trigger] t[a].if_index == #[trigger] t[b].if_index implies a == b by {
        let a2 = if a < i { a } else { a + 1 };
        let b2 = if b < i { b } else { b + 1 };
        assert(s[a2].if_index == s[b2].if_index);
    }
    assert forall|k: u32| #![auto] resolver_map(t).contains_key(k) <==> resolver_map(s).remove(k0).contains_key(k) by {
        if exists|a: int| 0 <= a < t.len() && t[a].if_index == k {
            let a = choose|a: int| 0 <= a < t.len() && t[a].if_index == k;
            let a2 = if a < i { a } else { a + 1 };
            assert(s[a2].if_index == k);
            assert(a2 != i);
        }
        if k != k0 && exists|a: int| 0 <= a < s.len() && s[a].if_index == k {
            let a = choose|a: int| 0 <= a < s.len() && s[a].if_index == k;
            assert(a != i);
            let a2 = if a < i { a } else { a - 1 };
            assert(t[a2].if_index == k);
        }
    }
    assert forall|k: u32| #![auto] resolver_map(t).contains_key(k) implies resolver_map(t)[k] == resolver_map(s).remove(k0)[k] by {
        let a = choose|a: int| 0 <= a < t.len() && t[a].if_index == k;
        let a2 = if a < i { a } else { a + 1 };
        assert(t[a] == s[a2]);
        lemma_resolver_at(s, a2);
    }
    assert(resolver_map(t) =~= resolver_map(s).remove(k0));
}

proof fn lemma_resolver_push(s: Seq<IfAddress>, addr: IfAddress)
    requires
        distinct_interfaces(s),
        !resolver_map(s).contains_key(addr.if_index),
    ensures
        distinct_interfaces(s.push(addr)),
        resolver_map(s.push(addr)) == resolver_map(s).insert(addr.if_index, addr),
{
    let t = s.push(addr);
    let n = s.len() as int;
    assert forall|a: int| 0 <= a < n implies s[a].if_index != addr.if_index by {
        if s[a].if_index == addr.if_index {
            assert(resolver_map(s).contains_key(addr.if_index));
        }
    }
    assert forall|a: int, b: int| 0 <= a < t.len() && 0 <= b < t.len() && #[trigger] t[a].if_index == #[trigger] t[b].if_index implies a == b by {
        if a < n && b < n {
            assert(s[a].if_index == s[b].if_index);
        }
    }
    assert forall|k: u32| #![auto] resolver_map(t).contains_key(k) <==> resolver_map(s).insert(addr.if_index, addr).contains_key(k) by {
        if exists|a: int| 0 <= a < t.len() && t[a].if_index == k {
            let a = choose|a: int| 0 <= a < t.len() && t[a].if_index == k;
            if a < n {
                assert(s[a].if_index == k);
            }
        }
        if k == addr.if_index {
            assert(t[n].if_index == k);
        } else if exists|a: int| 0 <= a < s.len() && s[a].if_index == k {
            let a = choose|a: int| 0 <= a < s.len() && s[a].if_index == k;
            assert(t[a].if_index == k);
        }
    }
    assert forall|k: u32| #![auto] resolver_map(t).contains_key(k) implies resolver_map(t)[k] == resolver_map(s).insert(addr.if_index, addr)[k] by {
        if k == addr.if_index {
            lemma_resolver_at(t, n);
        } else {
            let a = choose|a: int| 0 <= a < t.len() && t[a].if_index == k;
            assert(a < n);
            assert(t[a] == s[a]);
            lemma_resolver_at(s, a);
        }
    }
    assert(resolver_map(t) =~= resolver_map(s).insert(addr.if_index, addr));
}

impl View for ResolverRegistry {
    type V = ResolverState;

    closed spec fn view(&self) -> ResolverState {
        ResolverState { resolvers: resolver_map(self.resolvers@), pending: self.pending@.to_set() }
    }
}

impl ResolverRegistry {
    /// The index of the mesh interface.
    pub closed spec fn batman_if_index(&self) -> u32 {
        self.batman_if_index
    }

    /// No interface has two resolvers, and no address waits twice.
    pub closed spec fn well_formed(&self) -> bool {
        &&& distinct_interfaces(self.resolvers@)
        &&& self.pending@.no_duplicates()
    }

    /// No resolver yet, nothing waiting.
    pub fn new(batman_if_index: u32) -> (r: ResolverRegistry)
        ensures
            r.well_formed(),
            r.batman_if_index() == batman_if_index,
            r@.resolvers == Map::<u32, IfAddress>::empty(),
            r@.pending == Set::<IfAddress>::empty(),
    {
        let r = ResolverRegistry { batman_if_index, resolvers: Vec::new(), pending: Vec::new() };
        assert(r@.resolvers =~= Map::<u32, IfAddress>::empty());
        assert(r@.pending =~= Set::<IfAddress>::empty());
        r
    }

    /// Whether an address that came up gets a resolver.
    pub fn wants(&self, addr: IfAddress) -> (r: bool)
        ensures
            r == wants_resolver(self.batman_if_index(), addr),
    {
        addr.if_index != self.batman_if_index && addr.addr != LOOPBACK
    }

    fn find_resolver(&self, if_index: u32) -> (r: Option<usize>)
        ensures
            match r {
                Some(i) => i < self.resolvers@.len() && self.resolvers@[i as int].if_index == if_index,
                None => forall|i: int| 0 <= i < self.resolvers@.len() ==> self.resolvers@[i].if_index != if_index,
            },
    {
        let mut i: usize = 0;
        while i < self.resolvers.len()
            invariant
                i <= self.resolvers.len(),
                forall|j: int| 0 <= j < i ==> self.resolvers@[j].if_index != if_index,
            decreases self.resolvers.len() - i,
        {
            if self.resolvers[i].if_index == if_index {
                return Some(i);
            }
            i = i + 1;
        }
        None
    }

    fn find_pending(&self, addr: IfAddress) -> (r: Option<usize>)
        ensures
            match r {
                Some(i) => i < self.pending@.len() && self.pending@[i as int] == addr,
                None => !self.pending@.contains(addr),
            },
    {
        let mut i: usize = 0;
        while i < self.pending.len()
            invariant
                i <= self.pending.len(),
                forall|j: int| 0 <= j < i ==> self.pending@[j] != addr,
            decreases self.pending.len() - i,
        {
            if self.pending[i] == addr {
                return Some(i);
            }
            i = i + 1;
        }
        None
    }

    /// Whether the interface has a resolver.
    pub fn has_resolver(&self, if_index: u32) -> (r: bool)
        requires
            self.well_formed(),
        ensures
            r == self@.resolvers.contains_key(if_index),
    {
        match self.find_resolver(if_index) {
            Some(i) => {
                proof {
                    lemma_resolver_at(self.resolvers@, i as int);
                }
                true
            },
            None => false,
        }
    }

    /// An address should get a resolver: nothing to do where its interface has one;
    /// else a resolver starts on the first listen address on its interface (`listen`
    /// gives the interface of each listen address, `None` for one on none), or, where
    /// there is none, the address waits.
    pub fn add_resolver(&mut self, addr: IfAddress, listen: &Vec<Option<u32>>) -> (r: AddResolver)
        requires
            old(self).well_formed(),
        ensures
            final(self).well_formed(),
            final(self).batman_if_index() == old(self).batman_if_index(),
            final(self)@.resolvers == old(self)@.resolvers,
            old(self)@.resolvers.contains_key(addr.if_index) ==> r == AddResolver::Running && final(self)@.pending == old(self)@.pending,
            !old(self)@.resolvers.contains_key(addr.if_index) ==> match first_on_interface(listen@, addr.if_index) {
                Some(i) => r == AddResolver::Start(i as usize) && final(self)@.pending == old(self)@.pending,
                None => r == AddResolver::Wait && final(self)@.pending == old(self)@.pending.insert(addr),
            },
    {
        if self.has_resolver(addr.if_index) {
            return AddResolver::Running;
        }
        match position_on_interface(listen, addr.if_index) {
            Some(i) => {
                return AddResolver::Start(i);
            },
            None => {},
        }
        if self.find_pending(addr).is_none() {
            let ghost before = self.pending@;
            self.pending.push(addr);
            proof {
                assert(self.pending@ == before.push(addr));
                assert forall|x: IfAddress| #![auto] self.pending@.to_set().contains(x) <==> before.to_set().insert(addr).contains(x) by {
                    if x == addr {
                        assert(self.pending@[before.len() as int] == addr);
                    } else if before.contains(x) {
                        let k = choose|k: int| 0 <= k < before.len() && before[k] == x;
                        assert(self.pending@[k] == x);
                    }
                    if self.pending@.contains(x) && x != addr {
                        let k = choose|k: int| 0 <= k < self.pending@.len() && self.pending@[k] == x;
                        assert(k < before.len());
                        assert(before[k] == x);
                    }
                }
                assert(self.pending@.to_set() =~= before.to_set().insert(addr));
                assert(self.pending@.no_duplicates()) by {
                    assert forall|a: int, b: int| 0 <= a < b < self.pending@.len() implies self.pending@[a] != self.pending@[b] by {
                        if b == before.len() {
                            assert(before.contains(before[a]));
                        }
                    }
                }
            }
        } else {
            proof {
                assert(self.pending@.to_set() =~= self.pending@.to_set().insert(addr));
            }
        }
        AddResolver::Wait
    }

    /// A resolver was started for `addr`.
    pub fn started(&mut self, addr: IfAddress)
        requires
            old(self).well_formed(),
            !old(self)@.resolvers.contains_key(addr.if_index),
        ensures
            final(self).well_formed(),
            final(self).batman_if_index() == old(self).batman_if_index(),
            final(self)@.resolvers == old(self)@.resolvers.insert(addr.if_index, addr),
            final(self)@.pending == old(self)@.pending,
    {
        proof {
            lemma_resolver_push(self.resolvers@, addr);
        }
        self.resolvers.push(addr);
    }

    /// An address went away: the resolver of its interface stops (the result is the
    /// address it was started for), or, where the interface has none, the address no
    /// longer waits.
    pub fn on_down(&mut self, addr: IfAddress) -> (r: Option<IfAddress>)
        requires
            old(self).well_formed(),
        ensures
            final(self).well_formed(),
            final(self).batman_if_index() == old(self).batman_if_index(),
            old(self)@.resolvers.contains_key(addr.if_index) ==> r == Some(old(self)@.resolvers[addr.if_index])
                && final(self)@.resolvers == old(self)@.resolvers.remove(addr.if_index)
                && final(self)@.pending == old(self)@.pending,
            !old(self)@.resolvers.contains_key(addr.if_index) ==> r is None
                && final(self)@.resolvers == old(self)@.resolvers
                && final(self)@.pending == old(self)@.pending.remove(addr),
    {
        match self.stop_resolver(addr.if_index) {
            Some(a) => Some(a),
            None => {
                match self.find_pending(addr) {
                    Some(i) => {
                        let ghost before = self.pending@;
                        self.pending.remove(i);
                        proof {
                            assert(self.pending@ == before.remove(i as int));
                            assert forall|x: IfAddress| #![auto] self.pending@.to_set().contains(x) <==> before.to_set().remove(addr).contains(x) by {
                                if x != addr && before.contains(x) {
                                    let k = choose|k: int| 0 <= k < before.len() && before[k] == x;
                                    assert(k != i);
                                    let k2 = if k < i { k } else { k - 1 };
                                    assert(self.pending@[k2] == x);
                                }
                                if self.pending@.contains(x) {
                                    let k = choose|k: int| 0 <= k < self.pending@.len() && self.pending@[k] == x;
                                    let k2 = if k < i { k } else { k + 1 };
                                    assert(before[k2] == x);
                                    assert(k2 != i);
                                }
                            }
                            assert(self.pending@.to_set() =~= before.to_set().remove(addr));
                        }
                    },
                    None => {
                        proof {
                            assert(self.pending@.to_set() =~= self.pending@.to_set().remove(addr));
                        }
                    },
                }
                None
            },
        }
    }

    /// The listen addresses changed: every waiting address is handed out, to be added
    /// again, and none waits any more.
    pub fn take_pending(&mut self) -> (r: Vec<IfAddress>)
        requires
            old(self).well_formed(),
        ensures
            final(self).well_formed(),
            final(self).batman_if_index() == old(self).batman_if_index(),
            r@.to_set() == old(self)@.pending,
            r@.no_duplicates(),
            final(self)@.resolvers == old(self)@.resolvers,
            final(self)@.pending == Set::<IfAddress>::empty(),
    {
        let mut taken: Vec<IfAddress> = Vec::new();
        std::mem::swap(&mut taken, &mut self.pending);
        proof {
            assert(self.pending@.to_set() =~= Set::<IfAddress>::empty());
        }
        taken
    }

    /// The resolver of the interface stops, where it has one: the result is the address
    /// it was started for.
    pub fn stop_resolver(&mut self, if_index: u32) -> (r: Option<IfAddress>)
        requires
            old(self).well_formed(),
        ensures
            final(self).well_formed(),
            final(self).batman_if_index() == old(self).batman_if_index(),
            r == (if old(self)@.resolvers.contains_key(if_index) { Some(old(self)@.resolvers[if_index]) } else { None }),
            final(self)@.resolvers == old(self)@.resolvers.remove(if_index),
            final(self)@.pending == old(self)@.pending,
    {
        match self.find_resolver(if_index) {
            Some(i) => {
                proof {
                    lemma_resolver_at(self.resolvers@, i as int);
                    lemma_resolver_remove(self.resolvers@, i as int);
                }
                let a = self.resolvers.remove(i);
                Some(a)
            },
            None => {
                proof {
                    assert(!self@.resolvers.contains_key(if_index));
                    assert(self@.resolvers.remove(if_index) =~= self@.resolvers);
                }
                None
            },
        }
    }
}

/// The hardware addresses of the pairs on interface `k`, in order.
pub open spec fn macs_on(pairs: Seq<(u32, [u8; 6])>, k: u32) -> Seq<[u8; 6]>
    decreases pairs.len(),
{
    if pairs.len() == 0 {
        Seq::empty()
    } else {
        let rest = macs_on(pairs.drop_last(), k);
        if pairs.last().0 == k {
            rest.push(pairs.last().1)
        } else {
            rest
        }
    }
}

/// The interface of each pair, in order.
pub open spec fn interfaces_of(pairs: Seq<(u32, [u8; 6])>) -> Seq<u32> {
    pairs.map_values(|p: (u32, [u8; 6])| p.0)
}

/// The interfaces of the pairs, each once, in the order they first appear.
fn distinct_interfaces_of(pairs: &Vec<(u32, [u8; 6])>) -> (keys: Vec<u32>)
    ensures
        keys@.no_duplicates(),
        keys@.to_set() == interfaces_of(pairs@).to_set(),
{
    let ghost all = interfaces_of(pairs@);
    let mut keys: Vec<u32> = Vec::new();
    let mut n: usize = 0;
    while n < pairs.len()
        invariant
            all == interfaces_of(pairs@),
            n <= pairs.len(),
            keys@.no_duplicates(),
            keys@.to_set() == all.take(n as int).to_set(),
        decreases pairs.len() - n,
    {
        let k = pairs[n].0;
        let mut found = false;
        let mut j: usize = 0;
        while j < keys.len()
            invariant
                j <= keys.len(),
                found == exists|b: int| 0 <= b < j && keys@[b] == k,
            decreases keys.len() - j,
        {
            if keys[j] == k {
                found = true;
            }
            j = j + 1;
        }
        let ghost before = keys@;
        let ghost t0 = all.take(n as int);
        let ghost t1 = all.take(n + 1);
        proof {
            assert(t1 =~= t0.push(k));
        }
        if !found {
            keys.push(k);
            proof {
                assert forall|a: int, b: int| 0 <= a < b < keys@.len() implies keys@[a] != keys@[b] by {
                    if b == before.len() {
                        assert(before[a] != k);
                    }
                }
                assert forall|x: u32| #![auto] keys@.to_set().contains(x) <==> t1.to_set().contains(x) by {
                    if keys@.contains(x) && x != k {
                        let c = choose|c: int| 0 <= c < keys@.len() && keys@[c] == x;
                        assert(before[c] == x);
                        assert(before.to_set().contains(x));
                        assert(t0.contains(x));
                        let d = choose|d: int| 0 <= d < n && t0[d] == x;
                        assert(t1[d] == x);
                    }
                    if x == k {
                        assert(keys@[before.len() as int] == k);
                        assert(t1[n as int] == k);
                    }
                    if t1.contains(x) && x != k {
                        let d = choose|d: int| 0 <= d < n + 1 && t1[d] == x;
                        assert(d < n);
                        assert(t0[d] == x);
                        assert(t0.to_set().contains(x));
                        let c = choose|c: int| 0 <= c < before.len() && before[c] == x;
                        assert(keys@[c] == x);
                    }
                }
                assert(keys@.to_set() =~= t1.to_set());
            }
        } else {
            proof {
                let c = choose|b: int| 0 <= b < keys@.len() && keys@[b] == k;
                assert forall|x: u32| #![auto] keys@.to_set().contains(x) <==> t1.to_set().contains(x) by {
                    if keys@.contains(x) {
                        assert(t0.to_set().contains(x));
                        let d = choose|d: int| 0 <= d < n && t0[d] == x;
                        assert(t1[d] == x);
                    }
                    if t1.contains(x) {
                        let d = choose|d: int| 0 <= d < n + 1 && t1[d] == x;
                        if d < n {
                            assert(t0[d] == x);
                            assert(t0.to_set().contains(x));
                        } else {
                            assert(keys@[c] == x);
                        }
                    }
                }
                assert(keys@.to_set() =~= t1.to_set());
            }
        }
        n = n + 1;
    }
    proof {
        assert(all.take(n as int) =~= all);
    }
    keys
}

/// The hardware addresses of the pairs on interface `k`, in order.
fn macs_of(pairs: &Vec<(u32, [u8; 6])>, k: u32) -> (r: Vec<[u8; 6]>)
    ensures
        r@ == macs_on(pairs@, k),
{
    let mut macs: Vec<[u8; 6]> = Vec::new();
    let mut a: usize = 0;
    while a < pairs.len()
        invariant
            a <= pairs.len(),
            macs@ == macs_on(pairs@.take(a as int), k),
        decreases pairs.len() - a,
    {
        proof {
            assert(pairs@.take(a + 1).drop_last() =~= pairs@.take(a as int));
        }
        if pairs[a].0 == k {
            macs.push(pairs[a].1);
        }
        a = a + 1;
    }
    proof {
        assert(pairs@.take(a as int) =~= pairs@);
    }
    macs
}

/// The interface of each group, in order.
pub open spec fn group_keys(groups: Seq<(u32, Vec<[u8; 6]>)>) -> Seq<u32> {
    groups.map_values(|g: (u32, Vec<[u8; 6]>)| g.0)
}

/// The newly discovered neighbours grouped by interface: one group per interface that
/// has any, each with the hardware addresses seen on it, in order.
pub fn group_by_interface(pairs: &Vec<(u32, [u8; 6])>) -> (r: Vec<(u32, Vec<[u8; 6]>)>)
    ensures
        group_keys(r@).no_duplicates(),
        group_keys(r@).to_set() == interfaces_of(pairs@).to_set(),
        forall|i: int| 0 <= i < r@.len() ==> (#[trigger] r@[i]).1@ == macs_on(pairs@, r@[i].0),
{
    let keys = distinct_interfaces_of(pairs);
    let mut r: Vec<(u32, Vec<[u8; 6]>)> = Vec::new();
    let mut g: usize = 0;
    while g < keys.len()
        invariant
            g <= keys.len(),
            r@.len() == g,
            forall|b: int| 0 <= b < g ==> (#[trigger] r@[b]).0 == keys@[b] && r@[b].1@ == macs_on(pairs@, keys@[b]),
        decreases keys.len() - g,
    {
        let k = keys[g];
        let macs = macs_of(pairs, k);
        r.push((k, macs));
        g = g + 1;
    }
    proof {
        assert(group_keys(r@) =~= keys@);
    }
    r
}

/// The addresses a node would dial to reach a resolved neighbour: the direct address of
/// each of its resolutions, then the mesh address of the first.
pub open spec fn dial_candidates(neighbours: Seq<(Seq<u8>, Seq<u8>)>) -> Seq<Seq<u8>> {
    neighbours.map_values(|n: (Seq<u8>, Seq<u8>)| n.0) + if neighbours.len() > 0 {
        seq![neighbours[0].1]
    } else {
        Seq::empty()
    }
}

/// The addresses of `candidates` that are not among `known`, in order.
pub open spec fn not_known(candidates: Seq<Seq<u8>>, known: Seq<Seq<u8>>) -> Seq<Seq<u8>>
    decreases candidates.len(),
{
    if candidates.len() == 0 {
        Seq::empty()
    } else {
        let rest = not_known(candidates.drop_last(), known);
        if known.contains(candidates.last()) {
            rest
        } else {
            rest.push(candidates.last())
        }
    }
}

fn contains_bytes(list: &Vec<Vec<u8>>, x: &Vec<u8>) -> (r: bool)
    ensures
        r == list@.map_values(|v: Vec<u8>| v@).contains(x@),
{
    let ghost m = list@.map_values(|v: Vec<u8>| v@);
    let mut i: usize = 0;
    while i < list.len()
        invariant
            m == list@.map_values(|v: Vec<u8>| v@),
            i <= list.len(),
            forall|j: int| 0 <= j < i ==> m[j] != x@,
        decreases list.len() - i,
    {
        if bytes_eq(&list[i], x) {
            assert(m[i as int] == x@);
            return true;
        }
        i = i + 1;
    }
    false
}

/// The addresses to dial, besides those the dial already has (`addresses`), to reach a
/// neighbour through its resolutions (`neighbours`: the direct and the mesh address of
/// each): those of its dial candidates not already there.
pub fn dial_addresses(neighbours: &Vec<(Vec<u8>, Vec<u8>)>, addresses: &Vec<Vec<u8>>) -> (r: Vec<Vec<u8>>)
    ensures
        r@.map_values(|v: Vec<u8>| v@) == not_known(
            dial_candidates(neighbours@.map_values(|n: (Vec<u8>, Vec<u8>)| (n.0@, n.1@))),
            addresses@.map_values(|v: Vec<u8>| v@),
        ),
{
    let ghost ns = neighbours@.map_values(|n: (Vec<u8>, Vec<u8>)| (n.0@, n.1@));
    let ghost known = addresses@.map_values(|v: Vec<u8>| v@);
    let ghost cands = dial_candidates(ns);
    let mut candidates: Vec<Vec<u8>> = Vec::new();
    let mut i: usize = 0;
    while i < neighbours.len()
        invariant
            ns == neighbours@.map_values(|n: (Vec<u8>, Vec<u8>)| (n.0@, n.1@)),
            i <= neighbours.len(),
            candidates@.map_values(|v: Vec<u8>| v@) == ns.take(i as int).map_values(|n: (Seq<u8>, Seq<u8>)| n.0),
        decreases neighbours.len() - i,
    {
        let ghost before = candidates@;
        let d = copy_bytes(&neighbours[i].0);
        candidates.push(d);
        proof {
            assert(ns[i as int] == (neighbours@[i as int].0@, neighbours@[i as int].1@));
            assert(candidates@ == before.push(d));
            assert(candidates@.map_values(|v: Vec<u8>| v@) =~= before.map_values(|v: Vec<u8>| v@).push(d@));
            assert(ns.take(i + 1).map_values(|n: (Seq<u8>, Seq<u8>)| n.0) =~= ns.take(i as int).map_values(|n: (Seq<u8>, Seq<u8>)| n.0).push(ns[i as int].0));
        }
        i = i + 1;
    }
    if neighbours.len() > 0 {
        candidates.push(copy_bytes(&neighbours[0].1));
    }
    proof {
        assert(ns.take(i as int) =~= ns);
        assert(candidates@.map_values(|v: Vec<u8>| v@) =~= cands);
    }
    let ghost cv = candidates@.map_values(|v: Vec<u8>| v@);
    let mut r: Vec<Vec<u8>> = Vec::new();
    let mut c: usize = 0;
    while c < candidates.len()
        invariant
            cv == candidates@.map_values(|v: Vec<u8>| v@),
            known == addresses@.map_values(|v: Vec<u8>| v@),
            c <= candidates.len(),
            r@.map_values(|v: Vec<u8>| v@) == not_known(cv.take(c as int), known),
        decreases candidates.len() - c,
    {
        proof {
            assert(cv.take(c + 1).drop_last() =~= cv.take(c as int));
            assert(cv.take(c + 1).last() == cv[c as int]);
        }
        if !contains_bytes(addresses, &candidates[c]) {
            let ghost before = r@;
            r.push(copy_bytes(&candidates[c]));
            proof {
                assert(r@.map_values(|v: Vec<u8>| v@) =~= before.map_values(|v: Vec<u8>| v@).push(cv[c as int]));
            }
        }
        c = c + 1;
    }
    proof {
        assert(cv.take(c as int) =~= cv);
    }
    r
}

/// A dial that the behaviour asks of the swarm: the peer, and the addresses to try for
/// it, in order.
#[derive(Debug, PartialEq, Eq)]
pub struct Dial {
    pub peer: Vec<u8>,
    pub addresses: Vec<Vec<u8>>,
}

/// A dial as plain values.
pub open spec fn dial_view(d: Dial) -> (Seq<u8>, Seq<Seq<u8>>) {
    (d.peer@, d.addresses@.map_values(|a: Vec<u8>| a@))
}

/// The dials for the neighbours that an update resolved (each given by its peer, its
/// mesh address and its direct address): one per neighbour, in order, trying the direct
/// address first and then the mesh address.
pub open spec fn resolved_dials_spec(resolved: Seq<(Seq<u8>, Seq<u8>, Seq<u8>)>) -> Seq<(Seq<u8>, Seq<Seq<u8>>)> {
    resolved.map_values(|n: (Seq<u8>, Seq<u8>, Seq<u8>)| (n.0, seq![n.2, n.1]))
}

/// The dials queued for the neighbours of a neighbour update that were resolved.
pub fn resolved_dials(resolved: &Vec<(Vec<u8>, Vec<u8>, Vec<u8>)>) -> (r: Vec<Dial>)
    ensures
        r@.map_values(|d: Dial| dial_view(d)) == resolved_dials_spec(
            resolved@.map_values(|n: (Vec<u8>, Vec<u8>, Vec<u8>)| (n.0@, n.1@, n.2@)),
        ),
{
    let ghost ns = resolved@.map_values(|n: (Vec<u8>, Vec<u8>, Vec<u8>)| (n.0@, n.1@, n.2@));
    let mut r: Vec<Dial> = Vec::new();
    let mut i: usize = 0;
    while i < resolved.len()
        invariant
            i <= resolved.len(),
            ns == resolved@.map_values(|n: (Vec<u8>, Vec<u8>, Vec<u8>)| (n.0@, n.1@, n.2@)),
            r@.map_values(|d: Dial| dial_view(d)) == resolved_dials_spec(ns.take(i as int)),
        decreases resolved.len() - i,
    {
        let peer = copy_bytes(&resolved[i].0);
        let direct = copy_bytes(&resolved[i].2);
        let mesh = copy_bytes(&resolved[i].1);
        let addresses = vec![direct, mesh];
        let d = Dial { peer, addresses };
        let ghost before = r@;
        r.push(d);
        proof {
            assert(ns[i as int] == (resolved@[i as int].0@, resolved@[i as int].1@, resolved@[i as int].2@));
            assert(d.addresses@.map_values(|a: Vec<u8>| a@) =~= seq![ns[i as int].2, ns[i as int].1]);
            assert(r@ == before.push(d));
            assert(r@.map_values(|d: Dial| dial_view(d)) =~= before.map_values(|d: Dial| dial_view(d)).push(dial_view(d)));
            assert(ns.take(i + 1) =~= ns.take(i as int).push(ns[i as int]));
            assert(resolved_dials_spec(ns.take(i + 1)) =~= resolved_dials_spec(ns.take(i as int)).push(
                (ns[i as int].0, seq![ns[i as int].2, ns[i as int].1])));
        }
        i = i + 1;
    }
    assert(ns.take(i as int) =~= ns);
    r
}

} // verus!
