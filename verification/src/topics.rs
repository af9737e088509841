//! The publish/subscribe topics a node is subscribed to: each topic, by its hash, with
//! the channel its messages are handed to. A topic nobody listens to any more is left.
//!
//! The network's topic and the channel stay outside, as the type parameters `T` and `Tx`.
use vstd::prelude::*;

verus! {

/// Why a message could not be handed on.
#[derive(Debug, Clone, PartialEq, Eq)]
pub enum TopicError {
    /// The node is subscribed to no topic with this hash.
    MessageWithoutTopic(String),
}

/// The topic hashes of the entries, in order.
pub open spec fn hashes<T, Tx>(s: Seq<(String, T, Tx)>) -> Seq<Seq<char>> {
    s.map_values(|e: (String, T, Tx)| e.0@)
}

/// The entries whose listener count (at the same position of `counts`) is `live`
/// (not zero) or not, in order.
pub open spec fn with_listeners<T, Tx>(s: Seq<(String, T, Tx)>, counts: Seq<usize>, live: bool) -> Seq<(String, T, Tx)>
    decreases s.len(),
{
    if s.len() == 0 || counts.len() != s.len() {
        Seq::empty()
    } else {
        let rest = with_listeners(s.drop_last(), counts.drop_last(), live);
        if (counts.last() > 0) == live {
            rest.push(s.last())
        } else {
            rest
        }
    }
}

/// The subscribed topics.
pub struct Topics<T, Tx> {
    topic_subscriptions: Vec<(String, T, Tx)>,
}

impl<T, Tx> View for Topics<T, Tx> {
    type V = Seq<(String, T, Tx)>;

    closed spec fn view(&self) -> Seq<(String, T, Tx)> {
        self.topic_subscriptions@
    }
}

impl<T, Tx> Topics<T, Tx> {
    /// No topic has two entries.
    pub open spec fn well_formed(&self) -> bool {
        hashes(self@).no_duplicates()
    }

    /// Subscribed to nothing.
    pub fn new() -> (r: Self)
        ensures
            r.well_formed(),
            r@ == Seq::<(String, T, Tx)>::empty(),
    {
        let r = Topics { topic_subscriptions: Vec::new() };
        assert(hashes(r@) =~= Seq::<Seq<char>>::empty());
        r
    }

    /// The position of the entry of the topic with hash `hash`, if there is one.
    pub fn position(&self, hash: &String) -> (r: Option<usize>)
        ensures
            match r {
                Some(i) => i < self@.len() && self@[i as int].0@ == hash@,
                None => !hashes(self@).contains(hash@),
            },
    {
        let mut i: usize = 0;
        while i < self.topic_subscriptions.len()
            invariant
                i <= self@.len(),
                forall|j: int| 0 <= j < i ==> self@[j].0@ != hash@,
            decreases self@.len() - i,
        {
            if self.topic_subscriptions[i].0 == *hash {
                return Some(i);
            }
            i = i + 1;
        }
        proof {
            assert forall|j: int| 0 <= j < hashes(self@).len() implies hashes(self@)[j] != hash@ by {}
        }
        None
    }

    /// The channel of the topic with hash `hash`: a new subscription listens there too,
    /// and a message of the topic is handed to it; a message of a topic the node is not
    /// subscribed to is the error.
    pub fn channel(&self, hash: &String) -> (r: Result<&Tx, TopicError>)
        ensures
            match r {
                Ok(tx) => exists|i: int| 0 <= i < self@.len() && self@[i].0@ == hash@ && *tx == self@[i].2,
                Err(e) => !hashes(self@).contains(hash@) && e == TopicError::MessageWithoutTopic(*hash),
            },
    {
        match self.position(hash) {
            Some(i) => Ok(&self.topic_subscriptions[i].2),
            None => Err(TopicError::MessageWithoutTopic(hash.clone())),
        }
    }

    /// The node subscribed to a topic it had no entry for: its messages go to `sender`.
    pub fn insert(&mut self, hash: String, topic: T, sender: Tx)
        requires
            old(self).well_formed(),
            !hashes(old(self)@).contains(hash@),
        ensures
            final(self).well_formed(),
            final(self)@ == old(self)@.push((hash, topic, sender)),
    {
        let ghost before = self@;
        self.topic_subscriptions.push((hash, topic, sender));
        proof {
            assert(hashes(self@) =~= hashes(before).push(hash@));
            assert forall|a: int, b: int| 0 <= a < b < hashes(self@).len() implies hashes(self@)[a] != hashes(self@)[b] by {
                if b == before.len() {
                    assert(hashes(before).contains(hashes(before)[a]));
                }
            }
        }
    }

    /// The topics nobody listens to any more (`counts` gives the number of listeners of
    /// each entry, in order): the node unsubscribes from them.
    pub fn dead_topics(&self, counts: &Vec<usize>) -> (r: Vec<&T>)
        requires
            counts@.len() == self@.len(),
        ensures
            r@.len() == with_listeners(self@, counts@, false).len(),
            forall|i: int| 0 <= i < r@.len() ==> *r@[i] == (#[trigger] with_listeners(self@, counts@, false)[i]).1,
    {
        let mut r: Vec<&T> = Vec::new();
        let mut i: usize = 0;
        while i < self.topic_subscriptions.len()
            invariant
                i <= self@.len(),
                counts@.len() == self@.len(),
                r@.len() == with_listeners(self@.take(i as int), counts@.take(i as int), false).len(),
                forall|a: int| 0 <= a < r@.len() ==> *r@[a] == (#[trigger] with_listeners(self@.take(i as int), counts@.take(i as int), false)[a]).1,
            decreases self@.len() - i,
        {
            proof {
                assert(self@.take(i + 1).drop_last() =~= self@.take(i as int));
                assert(counts@.take(i + 1).drop_last() =~= counts@.take(i as int));
            }
            if counts[i] == 0 {
                r.push(&self.topic_subscriptions[i].1);
            }
            i = i + 1;
        }
        proof {
            assert(self@.take(i as int) =~= self@);
            assert(counts@.take(i as int) =~= counts@);
        }
        r
    }

    /// Keeps the entries that somebody listens to (`counts` as for `dead_topics`),
    /// in order.
    pub fn retain_live(&mut self, counts: &Vec<usize>)
        requires
            old(self).well_formed(),
            counts@.len() == old(self)@.len(),
        ensures
            final(self).well_formed(),
            final(self)@ == with_listeners(old(self)@, counts@, true),
    {
        let ghost s = self@;
        let mut old_entries: Vec<(String, T, Tx)> = Vec::new();
        std::mem::swap(&mut old_entries, &mut self.topic_subscriptions);
        let mut kept: Vec<(String, T, Tx)> = Vec::new();
        let mut taken: usize = 0;
        proof {
            lemma_with_listeners_sub(s, counts@, 0);
        }
        while old_entries.len() > 0
            invariant
                taken + old_entries@.len() == s.len(),
                counts@.len() == s.len(),
                s.len() == counts.len(),
                old_entries@ == s.skip(taken as int),
                kept@ == with_listeners(s.take(taken as int), counts@.take(taken as int), true),
            decreases old_entries@.len(),
        {
            let e = old_entries.remove(0);
            proof {
                assert(e == s[taken as int]);
                assert(old_entries@ =~= s.skip(taken + 1));
                assert(s.take(taken + 1).drop_last() =~= s.take(taken as int));
                assert(counts@.take(taken + 1).drop_last() =~= counts@.take(taken as int));
                assert(s.take(taken + 1).last() == e);
            }
            if counts[taken] > 0 {
                kept.push(e);
            }
            taken = taken + 1;
        }
        proof {
            assert(s.take(taken as int) =~= s);
            assert(counts@.take(taken as int) =~= counts@);
            lemma_with_listeners_sub(s, counts@, s.len() as int);
        }
        self.topic_subscriptions = kept;
    }
}

/// The kept entries are among the entries, in order, so their hashes stay distinct.
proof fn lemma_with_listeners_sub<T, Tx>(s: Seq<(String, T, Tx)>, counts: Seq<usize>, n: int)
    requires
        hashes(s).no_duplicates(),
        counts.len() == s.len(),
        0 <= n <= s.len(),
    ensures
        hashes(with_listeners(s.take(n), counts.take(n), true)).no_duplicates(),
        forall|x: Seq<char>| hashes(with_listeners(s.take(n), counts.take(n), true)).contains(x) ==> hashes(s.take(n)).contains(x),
    decreases n,
{
    let w = with_listeners(s.take(n), counts.take(n), true);
    if n > 0 {
        lemma_with_listeners_sub(s, counts, n - 1);
        assert(s.take(n).drop_last() =~= s.take(n - 1));
        assert(counts.take(n).drop_last() =~= counts.take(n - 1));
        let w0 = with_listeners(s.take(n - 1), counts.take(n - 1), true);
        let h0 = hashes(s.take(n - 1));
        let h1 = hashes(s.take(n));
        let e = s[n - 1];
        assert(s.take(n).last() == e);
        assert forall|x: Seq<char>| hashes(w0).contains(x) implies x != e.0@ by {
            assert(h0.contains(x));
            let j = choose|j: int| 0 <= j < h0.len() && h0[j] == x;
            assert(hashes(s)[j] == x);
            assert(hashes(s)[n - 1] == e.0@);
        }
        if counts[n - 1] > 0 {
            assert(w == w0.push(e));
            assert(hashes(w) =~= hashes(w0).push(e.0@));
            assert forall|a: int, b: int| 0 <= a < b < hashes(w).len() implies hashes(w)[a] != hashes(w)[b] by {
                if b == hashes(w0).len() {
                    assert(hashes(w0).contains(hashes(w0)[a]));
                }
            }
            assert forall|x: Seq<char>| hashes(w).contains(x) implies h1.contains(x) by {
                let j = choose|j: int| 0 <= j < hashes(w).len() && hashes(w)[j] == x;
                if j < hashes(w0).len() {
                    assert(hashes(w0)[j] == x);
                    assert(h0.contains(x));
                    let k = choose|k: int| 0 <= k < h0.len() && h0[k] == x;
                    assert(h1[k] == x);
                } else {
                    assert(h1[n - 1] == x);
                }
            }
        } else {
            assert(w == w0);
            assert forall|x: Seq<char>| hashes(w).contains(x) implies h1.contains(x) by {
                assert(h0.contains(x));
                let k = choose|k: int| 0 <= k < h0.len() && h0[k] == x;
                assert(h1[k] == x);
            }
        }
    } else {
        assert(w =~= Seq::<(String, T, Tx)>::empty());
        assert(hashes(w) =~= Seq::<Seq<char>>::empty());
    }
}

/// A topic the node subscribes to is found under its hash, with the channel it was
/// given: no other entry has that hash.
pub proof fn lemma_inserted_topic_found<T, Tx>(s: Seq<(String, T, Tx)>, hash: String, topic: T, sender: Tx)
    requires
        !hashes(s).contains(hash@),
    ensures
        forall|i: int| 0 <= i < s.len() + 1 && (#[trigger] s.push((hash, topic, sender))[i]).0@ == hash@ ==> i == s.len(),
{
    assert forall|i: int| 0 <= i < s.len() + 1 && (#[trigger] s.push((hash, topic, sender))[i]).0@ == hash@ implies i == s.len() by {
        if i < s.len() {
            assert(hashes(s)[i] == hash@);
        }
    }
}

} // verus!
