//! Round trips through the mesh: a node publishes a random number on the ping topic and
//! waits; each node that receives it reports the number back to the publisher, whose
//! waiting caller then learns who answered.
use vstd::prelude::*;

use crate::graph::PeerBytes;
use crate::pending::Pending;

verus! {

/// `256` to the power `k`.
pub open spec fn pow256(k: nat) -> nat
    decreases k,
{
    if k == 0 { 1 } else { 256 * pow256((k - 1) as nat) }
}

/// The number that bytes stand for, least significant byte first.
pub open spec fn le_value(s: Seq<u8>) -> nat
    decreases s.len(),
{
    if s.len() == 0 { 0 } else { s[0] as nat + 256 * le_value(s.drop_first()) }
}

/// The `k` lowest bytes of `n`, least significant first.
pub open spec fn le_bytes(n: nat, k: nat) -> Seq<u8>
    decreases k,
{
    if k == 0 { Seq::empty() } else { seq![(n % 256) as u8] + le_bytes(n / 256, (k - 1) as nat) }
}

proof fn lemma_le_bytes_len(n: nat, k: nat)
    ensures
        le_bytes(n, k).len() == k,
    decreases k,
{
    if k > 0 {
        lemma_le_bytes_len(n / 256, (k - 1) as nat);
    }
}

proof fn lemma_le_value_bound(s: Seq<u8>)
    ensures
        le_value(s) < pow256(s.len()),
    decreases s.len(),
{
    if s.len() > 0 {
        lemma_le_value_bound(s.drop_first());
        let r = le_value(s.drop_first());
        let p = pow256(s.drop_first().len());
        assert(s[0] as nat + 256 * r < 256 * p) by (nonlinear_arith)
            requires
                r < p,
                s[0] < 256,
        ;
    }
}

proof fn lemma_le_round_trip(n: nat, k: nat)
    requires
        n < pow256(k),
    ensures
        le_value(le_bytes(n, k)) == n,
    decreases k,
{
    if k > 0 {
        let p = pow256((k - 1) as nat);
        assert(n / 256 < p) by (nonlinear_arith)
            requires
                n < 256 * p,
        ;
        lemma_le_round_trip(n / 256, (k - 1) as nat);
        let b = le_bytes(n, k);
        assert(b.drop_first() =~= le_bytes(n / 256, (k - 1) as nat));
        assert(b[0] == (n % 256) as u8);
    }
}

proof fn lemma_pow256_8()
    ensures
        pow256(8) == 0x1_0000_0000_0000_0000,
{
    reveal_with_fuel(pow256, 9);
}

/// The bytes a ping carries: the random number, least significant byte first.
pub fn nonce_bytes(nonce: u64) -> (r: Vec<u8>)
    ensures
        r@ == le_bytes(nonce as nat, 8),
{
    let mut r: Vec<u8> = Vec::new();
    let mut cur: u64 = nonce;
    let mut i: u64 = 0;
    while i < 8
        invariant
            i <= 8,
            r@ + le_bytes(cur as nat, (8 - i) as nat) == le_bytes(nonce as nat, 8),
        decreases 8 - i,
    {
        let ghost before = r@;
        let ghost k = (8 - i) as nat;
        proof {
            assert(le_bytes(cur as nat, k) == seq![(cur as nat % 256) as u8] + le_bytes(cur as nat / 256, (k - 1) as nat));
        }
        r.push((cur % 256) as u8);
        proof {
            assert(r@ + le_bytes(cur as nat / 256, (k - 1) as nat) =~= before + le_bytes(cur as nat, k));
        }
        cur = cur / 256;
        i = i + 1;
    }
    proof {
        assert(le_bytes(cur as nat, 0) =~= Seq::<u8>::empty());
        assert(r@ + Seq::<u8>::empty() =~= r@);
    }
    r
}

/// The number a ping's bytes carry: exactly eight bytes, least significant first;
/// anything else carries none.
pub fn ping_nonce(data: &Vec<u8>) -> (r: Option<u64>)
    ensures
        r == (if data@.len() == 8 { Some(le_value(data@) as u64) } else { None::<u64> }),
        r matches Some(n) ==> n as nat == le_value(data@),
{
    if data.len() != 8 {
        return None;
    }
    let mut v: u64 = 0;
    let mut i: usize = 8;
    while i > 0
        invariant
            data@.len() == 8,
            i <= 8,
            v as nat == le_value(data@.subrange(i as int, 8)),
        decreases i,
    {
        let ghost tail = data@.subrange(i as int, 8);
        let ghost next = data@.subrange(i - 1, 8);
        proof {
            assert(next.drop_first() =~= tail);
            assert(next[0] == data@[i - 1]);
            lemma_le_value_bound(tail);
            lemma_pow256_8();
            assert(tail.len() == 8 - i);
            assert(pow256(tail.len()) * 256 <= pow256(8)) by {
                lemma_pow256_step_bound(tail.len());
            }
            assert(data@[i - 1] as nat + 256 * (v as nat) < 0x1_0000_0000_0000_0000) by (nonlinear_arith)
                requires
                    v < pow256(tail.len()),
                    pow256(tail.len()) * 256 <= 0x1_0000_0000_0000_0000,
                    data@[i - 1] < 256,
            ;
        }
        v = data[i - 1] as u64 + 256 * v;
        i = i - 1;
    }
    proof {
        assert(data@.subrange(0, 8) =~= data@);
    }
    Some(v)
}

proof fn lemma_pow256_step_bound(k: nat)
    requires
        k < 8,
    ensures
        pow256(k) * 256 <= pow256(8),
    decreases 8 - k,
{
    reveal_with_fuel(pow256, 9);
    if k < 7 {
        lemma_pow256_step_bound(k + 1);
        assert(pow256(k + 1) == 256 * pow256(k));
        assert(pow256(k) * 256 <= pow256(k + 1) * 256) by (nonlinear_arith)
            requires
                pow256(k + 1) == 256 * pow256(k),
        ;
    } else {
        assert(pow256(8) == 256 * pow256(7));
    }
}

/// A pong to report: the node that published the ping, with the number it carried.
/// A message whose publisher is unknown, or whose bytes carry no number, gives none.
pub fn pong_report(source: Option<PeerBytes>, data: &Vec<u8>) -> (r: Option<(PeerBytes, u64)>)
    ensures
        r matches Some((peer, n)) ==> source == Some(peer) && data@.len() == 8 && n as nat == le_value(data@),
        r is None ==> source is None || data@.len() != 8,
{
    match source {
        Some(peer) => match ping_nonce(data) {
            Some(n) => Some((peer, n)),
            None => None,
        },
        None => None,
    }
}

/// The bytes of a ping carry its number back: a node reports the number it was pinged
/// with.
pub proof fn lemma_ping_round_trip(nonce: u64)
    ensures
        le_bytes(nonce as nat, 8).len() == 8,
        le_value(le_bytes(nonce as nat, 8)) == nonce,
{
    lemma_le_bytes_len(nonce as nat, 8);
    lemma_pow256_8();
    lemma_le_round_trip(nonce as nat, 8);
}

/// The callers waiting for round trips, by the number of their ping.
pub struct RoundTrips<S> {
    senders: Pending<S>,
}

impl<S> View for RoundTrips<S> {
    type V = Map<u64, S>;

    closed spec fn view(&self) -> Map<u64, S> {
        self.senders@
    }
}

impl<S> RoundTrips<S> {
    /// Nobody waits.
    pub fn new() -> (r: Self)
        ensures
            r@ == Map::<u64, S>::empty(),
    {
        RoundTrips { senders: Pending::new() }
    }

    /// `sender` waits for the round trips of the ping numbered `nonce`, in place of
    /// whoever waited for them before.
    pub fn register(&mut self, nonce: u64, sender: S)
        ensures
            final(self)@ == old(self)@.insert(nonce, sender),
    {
        let _ = self.senders.insert(nonce, sender);
    }

    /// A node reported a round trip of the ping numbered `nonce`: it goes to the caller
    /// waiting for that ping, who keeps waiting for more; where nobody waits, nowhere.
    pub fn on_report(&self, nonce: u64) -> (r: Option<&S>)
        ensures
            r == (if self@.contains_key(nonce) { Some(&self@[nonce]) } else { None::<&S> }),
    {
        self.senders.get(nonce)
    }
}

} // verus!
