//! Running tasks by key: a slot per task, where a task that is removed or replaced
//! leaves its slot empty.
use vstd::prelude::*;

verus! {

/// A slot that holds a value until it is taken out.
pub struct OptionFuture<F>(Option<F>);

impl<F> OptionFuture<F> {
    /// What the slot holds.
    pub closed spec fn value(&self) -> Option<F> {
        self.0
    }

    /// A slot that holds `fut`.
    pub fn new(fut: F) -> (r: OptionFuture<F>)
        ensures
            r.value() == Some(fut),
    {
        OptionFuture(Some(fut))
    }

    /// Takes out what the slot holds, leaving it empty.
    pub fn take(&mut self) -> (r: Option<F>)
        ensures
            r == old(self).value(),
            final(self).value() is None,
    {
        let mut taken: Option<F> = None;
        std::mem::swap(&mut taken, &mut self.0);
        taken
    }
}

/// A task with the key it runs under.
pub struct KeyFuture<F> {
    pub key: u128,
    pub future: F,
}

/// The key of each slot that holds a task, `None` for an empty one.
pub open spec fn slot_keys<F>(slots: Seq<Option<KeyFuture<F>>>) -> Seq<Option<u128>> {
    slots.map_values(|s: Option<KeyFuture<F>>| match s {
        Some(kf) => Some(kf.key),
        None => None,
    })
}

/// The slot at `i` holds the task under `k`.
pub open spec fn holds_key<F>(slots: Seq<Option<KeyFuture<F>>>, i: int, k: u128) -> bool {
    &&& 0 <= i < slots.len()
    &&& slots[i] matches Some(kf) && kf.key == k
}

/// No key has two tasks.
pub open spec fn keys_unique<F>(slots: Seq<Option<KeyFuture<F>>>) -> bool {
    forall|i: int, j: int, k: u128| #[trigger] holds_key(slots, i, k) && #[trigger] holds_key(slots, j, k) ==> i == j
}

/// The slot that holds the task under `k`.
pub open spec fn slot_of<F>(slots: Seq<Option<KeyFuture<F>>>, k: u128) -> int {
    choose|i: int| holds_key(slots, i, k)
}

/// The tasks by key.
pub open spec fn tasks<F>(slots: Seq<Option<KeyFuture<F>>>) -> Map<u128, F> {
    Map::new(
        |k: u128| exists|i: int| holds_key(slots, i, k),
        |k: u128| slots[slot_of(slots, k)]->Some_0.future,
    )
}

/// The tasks of the slots that hold one, in slot order.
pub open spec fn live_futures<F>(slots: Seq<Option<KeyFuture<F>>>) -> Seq<F>
    decreases slots.len(),
{
    if slots.len() == 0 {
        Seq::empty()
    } else {
        let rest = live_futures(slots.drop_last());
        match slots.last() {
            Some(kf) => rest.push(kf.future),
            None => rest,
        }
    }
}

proof fn lemma_tasks_push<F>(t: Seq<Option<KeyFuture<F>>>, x: Option<KeyFuture<F>>)
    requires
        keys_unique(t.push(x)),
    ensures
        keys_unique(t),
        x is None ==> tasks(t.push(x)) == tasks(t),
        x matches Some(kf) ==> !tasks(t).contains_key(kf.key) && tasks(t.push(x)) == tasks(t).insert(kf.key, kf.future),
{
    let s = t.push(x);
    let n = t.len() as int;
    assert forall|a: int, b: int, k: u128| #[trigger] holds_key(t, a, k) && #[trigger] holds_key(t, b, k) implies a == b by {
        assert(holds_key(s, a, k) && holds_key(s, b, k));
    }
    assert forall|a: int, k: u128| #[trigger] holds_key(t, a, k) implies holds_key(s, a, k) by {}
    assert forall|a: int, k: u128| 0 <= a < n && #[trigger] holds_key(s, a, k) implies holds_key(t, a, k) by {}
    match x {
        None => {
            assert forall|k: u128| #![auto] tasks(s).contains_key(k) <==> tasks(t).contains_key(k) by {
                if exists|a: int| holds_key(s, a, k) {
                    let a = choose|a: int| holds_key(s, a, k);
                    assert(a < n);
                    assert(holds_key(t, a, k));
                }
                if exists|a: int| holds_key(t, a, k) {
                    let a = choose|a: int| holds_key(t, a, k);
                    assert(holds_key(s, a, k));
                }
            }
            assert forall|k: u128| #![auto] tasks(s).contains_key(k) implies tasks(s)[k] == tasks(t)[k] by {
                let a = slot_of(s, k);
                assert(a < n);
                assert(holds_key(t, a, k));
                assert(slot_of(t, k) == a);
            }
            assert(tasks(s) =~= tasks(t));
        },
        Some(kf) => {
            assert(holds_key(s, n, kf.key));
            assert(!tasks(t).contains_key(kf.key)) by {
                if exists|a: int| holds_key(t, a, kf.key) {
                    let a = choose|a: int| holds_key(t, a, kf.key);
                    assert(holds_key(s, a, kf.key));
                }
            }
            let m = tasks(t).insert(kf.key, kf.future);
            assert forall|k: u128| #![auto] tasks(s).contains_key(k) <==> m.contains_key(k) by {
                if exists|a: int| holds_key(s, a, k) {
                    let a = choose|a: int| holds_key(s, a, k);
                    if a < n {
                        assert(holds_key(t, a, k));
                    }
                }
                if k != kf.key && exists|a: int| holds_key(t, a, k) {
                    let a = choose|a: int| holds_key(t, a, k);
                    assert(holds_key(s, a, k));
                }
            }
            assert forall|k: u128| #![auto] tasks(s).contains_key(k) implies tasks(s)[k] == m[k] by {
                let a = slot_of(s, k);
                if k == kf.key {
                    assert(a == n);
                } else {
                    assert(a < n);
                    assert(holds_key(t, a, k));
                    assert(slot_of(t, k) == a);
                }
            }
            assert(tasks(s) =~= m);
        },
    }
}

/// The tasks of the slots, in slot order, are exactly the tasks of the map.
proof fn lemma_live_futures_are_tasks<F>(s: Seq<Option<KeyFuture<F>>>)
    requires
        keys_unique(s),
    ensures
        forall|i: int| 0 <= i < live_futures(s).len() ==> tasks(s).contains_value(#[trigger] live_futures(s)[i]),
        forall|k: u128| #[trigger] tasks(s).contains_key(k) ==> live_futures(s).contains(tasks(s)[k]),
    decreases s.len(),
{
    if s.len() == 0 {
        assert(tasks(s) =~= Map::<u128, F>::empty()) by {
            assert forall|k: u128| !tasks(s).contains_key(k) by {
                if exists|a: int| holds_key(s, a, k) {
                    let a = choose|a: int| holds_key(s, a, k);
                }
            }
        }
    } else {
        let t = s.drop_last();
        let x = s.last();
        assert(t.push(x) =~= s);
        lemma_tasks_push(t, x);
        lemma_live_futures_are_tasks(t);
        let lt = live_futures(t);
        match x {
            None => {
                assert(live_futures(s) == lt);
                assert forall|i: int| 0 <= i < live_futures(s).len() implies tasks(s).contains_value(#[trigger] live_futures(s)[i]) by {
                    assert(live_futures(s)[i] == lt[i]);
                    assert(tasks(t).contains_value(lt[i]));
                    let k = choose|k: u128| #[trigger] tasks(t).dom().contains(k) && tasks(t)[k] == lt[i];
                    assert(tasks(s).dom().contains(k) && tasks(s)[k] == live_futures(s)[i]);
                }
                assert forall|k: u128| #[trigger] tasks(s).contains_key(k) implies live_futures(s).contains(tasks(s)[k]) by {
                    assert(tasks(t).contains_key(k));
                }
            },
            Some(kf) => {
                assert(live_futures(s) == lt.push(kf.future));
                assert forall|i: int| 0 <= i < live_futures(s).len() implies tasks(s).contains_value(#[trigger] live_futures(s)[i]) by {
                    if i < lt.len() {
                        assert(live_futures(s)[i] == lt[i]);
                        assert(tasks(t).contains_value(lt[i]));
                        let k = choose|k: u128| #[trigger] tasks(t).dom().contains(k) && tasks(t)[k] == lt[i];
                        assert(k != kf.key);
                        assert(tasks(s).dom().contains(k) && tasks(s)[k] == lt[i]);
                    } else {
                        assert(tasks(s).dom().contains(kf.key) && tasks(s)[kf.key] == kf.future);
                    }
                }
                assert forall|k: u128| #[trigger] tasks(s).contains_key(k) implies live_futures(s).contains(tasks(s)[k]) by {
                    if k == kf.key {
                        assert(live_futures(s)[lt.len() as int] == kf.future);
                    } else {
                        assert(tasks(t).contains_key(k));
                        let i = choose|i: int| 0 <= i < lt.len() && lt[i] == tasks(t)[k];
                        assert(live_futures(s)[i] == lt[i]);
                    }
                }
            },
        }
    }
}

/// Tasks by key, each in a slot of its own.
pub struct FutureMap<F> {
    futures: Vec<OptionFuture<KeyFuture<F>>>,
}

impl<F> View for FutureMap<F> {
    type V = Map<u128, F>;

    open spec fn view(&self) -> Map<u128, F> {
        tasks(self.slots())
    }
}

impl<F> FutureMap<F> {
    /// What each slot holds, in order.
    pub closed spec fn slots(&self) -> Seq<Option<KeyFuture<F>>> {
        self.futures@.map_values(|f: OptionFuture<KeyFuture<F>>| f.value())
    }

    /// No key has two tasks.
    pub closed spec fn well_formed(&self) -> bool {
        keys_unique(self.slots())
    }

    /// No task.
    pub fn new() -> (r: FutureMap<F>)
        ensures
            r.well_formed(),
            r@ == Map::<u128, F>::empty(),
            r.slots() == Seq::<Option<KeyFuture<F>>>::empty(),
    {
        let r = FutureMap { futures: Vec::new() };
        assert(r.slots() =~= Seq::<Option<KeyFuture<F>>>::empty());
        assert(r@ =~= Map::<u128, F>::empty());
        r
    }

    /// The position of the slot that holds the task under `key`, if one does.
    fn find(&self, key: u128) -> (r: Option<usize>)
        ensures
            match r {
                Some(i) => holds_key(self.slots(), i as int, key),
                None => forall|i: int| !holds_key(self.slots(), i, key),
            },
    {
        let mut i: usize = 0;
        while i < self.futures.len()
            invariant
                i <= self.futures.len(),
                forall|j: int| 0 <= j < i ==> !holds_key(self.slots(), j, key),
            decreases self.futures.len() - i,
        {
            match &self.futures[i].0 {
                Some(kf) => {
                    if kf.key == key {
                        return Some(i);
                    }
                },
                None => {},
            }
            i = i + 1;
        }
        None
    }

    /// Takes out the task under `key`, leaving its slot empty.
    pub fn remove(&mut self, key: u128) -> (r: Option<F>)
        requires
            old(self).well_formed(),
        ensures
            final(self).well_formed(),
            final(self)@ == old(self)@.remove(key),
            old(self)@.contains_key(key) ==> r == Some(old(self)@[key]),
            !old(self)@.contains_key(key) ==> r is None,
            slot_keys(final(self).slots()).len() == slot_keys(old(self).slots()).len(),
    {
        let ghost s = self.slots();
        match self.find(key) {
            Some(i) => {
                let taken = self.futures[i].take();
                proof {
                    let t = self.slots();
                    assert(t =~= s.update(i as int, None));
                    assert(slot_of(s, key) == i as int);
                    assert forall|a: int, b: int, k: u128| #[trigger] holds_key(t, a, k) && #[trigger] holds_key(t, b, k) implies a == b by {
                        assert(holds_key(s, a, k) && holds_key(s, b, k));
                    }
                    assert forall|k: u128| #![auto] tasks(t).contains_key(k) <==> old(self)@.remove(key).contains_key(k) by {
                        if exists|a: int| holds_key(t, a, k) {
                            let a = choose|a: int| holds_key(t, a, k);
                            assert(holds_key(s, a, k));
                        }
                        if k != key && exists|a: int| holds_key(s, a, k) {
                            let a = choose|a: int| holds_key(s, a, k);
                            assert(holds_key(t, a, k));
                        }
                    }
                    assert forall|k: u128| #![auto] tasks(t).contains_key(k) implies tasks(t)[k] == old(self)@.remove(key)[k] by {
                        let a = slot_of(t, k);
                        assert(holds_key(s, a, k));
                        assert(slot_of(s, k) == a);
                    }
                    assert(tasks(t) =~= old(self)@.remove(key));
                }
                match taken {
                    Some(kf) => Some(kf.future),
                    None => None,
                }
            },
            None => {
                assert(old(self)@.remove(key) =~= old(self)@);
                None
            },
        }
    }

    /// Puts `future` under `key`, in a new slot; hands back the task that was under
    /// `key` before, whose slot is left empty.
    pub fn insert(&mut self, key: u128, future: F) -> (r: Option<F>)
        requires
            old(self).well_formed(),
        ensures
            final(self).well_formed(),
            final(self)@ == old(self)@.insert(key, future),
            old(self)@.contains_key(key) ==> r == Some(old(self)@[key]),
            !old(self)@.contains_key(key) ==> r is None,
    {
        let old_future = self.remove(key);
        let ghost s = self.slots();
        let ghost m = self@;
        self.futures.push(OptionFuture::new(KeyFuture { key, future }));
        proof {
            let t = self.slots();
            let n = s.len() as int;
            assert(t =~= s.push(Some(KeyFuture { key, future })));
            assert(!m.contains_key(key));
            assert forall|a: int| !holds_key(s, a, key) by {
                if holds_key(s, a, key) {
                    assert(m.contains_key(key));
                }
            }
            assert forall|a: int, b: int, k: u128| #[trigger] holds_key(t, a, k) && #[trigger] holds_key(t, b, k) implies a == b by {
                if a < n && b < n {
                    assert(holds_key(s, a, k) && holds_key(s, b, k));
                } else if a < n {
                    assert(holds_key(s, a, key));
                } else if b < n {
                    assert(holds_key(s, b, key));
                }
            }
            assert forall|k: u128| #![auto] tasks(t).contains_key(k) <==> m.insert(key, future).contains_key(k) by {
                if exists|a: int| holds_key(t, a, k) {
                    let a = choose|a: int| holds_key(t, a, k);
                    if a < n {
                        assert(holds_key(s, a, k));
                    }
                }
                if k == key {
                    assert(holds_key(t, n, k));
                } else if exists|a: int| holds_key(s, a, k) {
                    let a = choose|a: int| holds_key(s, a, k);
                    assert(holds_key(t, a, k));
                }
            }
            assert forall|k: u128| #![auto] tasks(t).contains_key(k) implies tasks(t)[k] == m.insert(key, future)[k] by {
                let a = slot_of(t, k);
                if k == key {
                    assert(holds_key(t, n, k));
                    assert(a == n);
                } else {
                    assert(a < n);
                    assert(holds_key(s, a, k));
                    assert(slot_of(s, k) == a);
                }
            }
            assert(tasks(t) =~= m.insert(key, future));
        }
        old_future
    }

    /// Each key with its task, in slot order.
    pub fn iter(&self) -> (r: Vec<(u128, &F)>)
        requires
            self.well_formed(),
        ensures
            forall|i: int| 0 <= i < r@.len() ==> self@.contains_key(#[trigger] r@[i].0) && *r@[i].1 == self@[r@[i].0],
            forall|k: u128| self@.contains_key(k) ==> exists|i: int| 0 <= i < r@.len() && #[trigger] r@[i].0 == k,
            forall|i: int, j: int| 0 <= i < j < r@.len() ==> r@[i].0 != r@[j].0,
    {
        let ghost s = self.slots();
        let mut r: Vec<(u128, &F)> = Vec::new();
        let ghost mut pos: Seq<int> = Seq::empty();
        let mut i: usize = 0;
        while i < self.futures.len()
            invariant
                s == self.slots(),
                keys_unique(s),
                i <= self.futures.len(),
                pos.len() == r@.len(),
                forall|a: int| 0 <= a < r@.len() ==> 0 <= #[trigger] pos[a] < i && holds_key(s, pos[a], r@[a].0) && *r@[a].1 == s[pos[a]]->Some_0.future,
                forall|j: int, k: u128| 0 <= j < i && #[trigger] holds_key(s, j, k) ==> exists|a: int| 0 <= a < r@.len() && #[trigger] r@[a].0 == k,
                forall|a: int, b: int| 0 <= a < b < r@.len() ==> r@[a].0 != r@[b].0,
            decreases self.futures.len() - i,
        {
            match &self.futures[i].0 {
                Some(kf) => {
                    let ghost before = r@;
                    proof {
                        assert(s[i as int] == Some(*kf));
                        assert(holds_key(s, i as int, kf.key));
                        assert forall|a: int| 0 <= a < before.len() implies before[a].0 != kf.key by {
                            if before[a].0 == kf.key {
                                assert(holds_key(s, pos[a], kf.key));
                            }
                        }
                    }
                    r.push((kf.key, &kf.future));
                    proof {
                        pos = pos.push(i as int);
                        assert forall|j: int, k: u128| 0 <= j < i + 1 && #[trigger] holds_key(s, j, k) implies exists|a: int| 0 <= a < r@.len() && #[trigger] r@[a].0 == k by {
                            if j < i {
                                let a = choose|a: int| 0 <= a < before.len() && #[trigger] before[a].0 == k;
                                assert(r@[a] == before[a]);
                            } else {
                                assert(r@[before.len() as int].0 == k);
                            }
                        }
                    }
                },
                None => {
                    proof {
                        assert forall|j: int, k: u128| 0 <= j < i + 1 && #[trigger] holds_key(s, j, k) implies exists|a: int| 0 <= a < r@.len() && #[trigger] r@[a].0 == k by {
                            if j == i {
                                assert(!holds_key(s, j, k));
                            }
                        }
                    }
                },
            }
            i = i + 1;
        }
        proof {
            assert forall|a: int| 0 <= a < r@.len() implies self@.contains_key(#[trigger] r@[a].0) && *r@[a].1 == self@[r@[a].0] by {
                assert(holds_key(s, pos[a], r@[a].0));
                assert(slot_of(s, r@[a].0) == pos[a]);
            }
            assert forall|k: u128| self@.contains_key(k) implies exists|a: int| 0 <= a < r@.len() && #[trigger] r@[a].0 == k by {
                let j = choose|j: int| holds_key(s, j, k);
            }
        }
        r
    }

    /// Takes out every task, in slot order, leaving every slot empty.
    pub fn take_futures(&mut self) -> (r: Vec<F>)
        requires
            old(self).well_formed(),
        ensures
            final(self).well_formed(),
            final(self)@ == Map::<u128, F>::empty(),
            r@ == live_futures(old(self).slots()),
            forall|i: int| 0 <= i < r@.len() ==> old(self)@.contains_value(#[trigger] r@[i]),
            forall|k: u128| #[trigger] old(self)@.contains_key(k) ==> r@.contains(old(self)@[k]),
    {
        proof {
            lemma_live_futures_are_tasks(self.slots());
        }
        let ghost s = self.slots();
        let mut r: Vec<F> = Vec::new();
        let mut i: usize = 0;
        while i < self.futures.len()
            invariant
                i <= self.futures.len(),
                self.futures@.len() == s.len(),
                forall|j: int| 0 <= j < i ==> (#[trigger] self.slots()[j]) is None,
                forall|j: int| i <= j < s.len() ==> #[trigger] self.slots()[j] == s[j],
                r@ == live_futures(s.take(i as int)),
            decreases self.futures.len() - i,
        {
            let ghost before = self.slots();
            let ghost before_vec = self.futures@;
            let taken = self.futures[i].take();
            proof {
                assert(taken == before_vec[i as int].value());
                assert(before_vec[i as int].value() == before[i as int]);
                assert(self.slots() =~= before.update(i as int, None));
                assert(s.take(i + 1).drop_last() =~= s.take(i as int));
                assert(s.take(i + 1).last() == s[i as int]);
                assert(taken == s[i as int]);
            }
            match taken {
                Some(kf) => {
                    r.push(kf.future);
                },
                None => {},
            }
            i = i + 1;
        }
        proof {
            assert(s.take(i as int) =~= s);
            let t = self.slots();
            assert forall|a: int, b: int, k: u128| #[trigger] holds_key(t, a, k) && #[trigger] holds_key(t, b, k) implies a == b by {}
            assert(self@ =~= Map::<u128, F>::empty()) by {
                assert forall|k: u128| !self@.contains_key(k) by {
                    if exists|a: int| holds_key(t, a, k) {
                        let a = choose|a: int| holds_key(t, a, k);
                        assert(t[a] is None);
                    }
                }
            }
        }
        r
    }
}

/// What was put under a key is what taking it out gives back.
pub proof fn lemma_insert_then_remove<F>(m: Map<u128, F>, key: u128, future: F)
    ensures
        m.insert(key, future).contains_key(key),
        m.insert(key, future)[key] == future,
        m.insert(key, future).remove(key) == m.remove(key),
{
    assert(m.insert(key, future).remove(key) =~= m.remove(key));
}

} // verus!
