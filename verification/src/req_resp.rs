//! The bookkeeping of the request/response service: subscriptions to incoming requests,
//! requests waiting for the answer of a local subscriber, and local callers waiting for
//! the answer of another node.
//!
//! The network and the channels stay outside: their values pass through here as type
//! parameters (`Q` for a subscription's topic query, `Tx` for the channel a subscriber
//! receives requests on, `Out` for a local caller waiting on an answer, `Chan` for the
//! channel a remote node waits on), and this module decides who gets what.
use vstd::prelude::*;

use crate::debug_events::{Response, ResponseError};
use crate::graph::{bytes_eq, PeerBytes};
use crate::pending::Pending;
use std::collections::HashMap;
use crate::stack::{SubscriptionId, SubscriptionIds};

verus! {

/// Whoever waits for the answer to a request that reached this node: a remote node on
/// its channel (with the number of the request in the debug events), or a local caller
/// that sent the request to this node itself.
pub type Waiter<Chan, Out> = Result<(u128, Chan), Out>;

/// Who waits for what, by number.
pub struct ReqRespState<Q, Tx, Out, Chan> {
    /// This node, where it is known.
    pub own: Option<Seq<u8>>,
    /// Local callers waiting on the answer of another node, by outbound request number.
    pub outbound: Map<u64, Out>,
    /// Subscriptions to incoming requests, by subscription number.
    pub subscriptions: Map<u64, (Option<Q>, Tx)>,
    /// Requests that reached a subscriber and wait for its answer, by request number.
    pub waiting: Map<u64, Waiter<Chan, Out>>,
    /// The number the next subscription gets.
    pub next: u64,
}

/// Whether a subscription takes a request: one without a query takes exactly the
/// requests without a topic; one with a query takes the requests with a topic that the
/// query matches (`query_matches`).
pub open spec fn selects<Q>(query: Option<Q>, topic: Option<String>, query_matches: bool) -> bool {
    match (query, topic) {
        (Some(_), Some(_)) => query_matches,
        (None, None) => true,
        _ => false,
    }
}

/// The answer to a request that no subscriber took: the receiver is not subscribed to
/// its topic.
pub open spec fn refusal(topic: Option<String>) -> Response {
    Response::Error(ResponseError::TopicNotSubscribed(topic))
}

/// Whether a subscription takes a request; `query_matches` is what the subscription's
/// query says of the request's topic, where both are there.
pub fn is_match<Q>(query: &Option<Q>, topic: &Option<String>, query_matches: bool) -> (r: bool)
    ensures
        r == selects(*query, *topic, query_matches),
{
    match (query, topic) {
        (Some(_), Some(_)) => query_matches,
        (None, None) => true,
        _ => false,
    }
}

/// What a caller is answered: the answer that came, or a timeout where none came in time.
pub fn response_or_timeout(received: Option<Response>) -> (r: Response)
    ensures
        r == match received {
            Some(response) => response,
            None => Response::Error(ResponseError::Timeout),
        },
{
    match received {
        Some(response) => response,
        None => Response::Error(ResponseError::Timeout),
    }
}

/// The bookkeeping of the request/response service.
pub struct Actor<Q, Tx, Out, Chan> {
    peer_id: Option<PeerBytes>,
    response_senders: Pending<Out>,
    request_subscriptions: Pending<(Option<Q>, Tx)>,
    response_channels: Pending<Waiter<Chan, Out>>,
    ids: SubscriptionIds,
}

impl<Q, Tx, Out, Chan> View for Actor<Q, Tx, Out, Chan> {
    type V = ReqRespState<Q, Tx, Out, Chan>;

    closed spec fn view(&self) -> ReqRespState<Q, Tx, Out, Chan> {
        ReqRespState {
            own: match self.peer_id {
                Some(p) => Some(p@),
                None => None,
            },
            outbound: self.response_senders@,
            subscriptions: self.request_subscriptions@,
            waiting: self.response_channels@,
            next: self.ids.next(),
        }
    }
}

impl<Q, Tx, Out, Chan> Actor<Q, Tx, Out, Chan> {
    /// Every subscription has a number below the next one.
    pub closed spec fn well_formed(&self) -> bool {
        forall|k: u64| #[trigger] self.request_subscriptions@.contains_key(k) ==> k < self.ids.next()
    }

    /// Nobody waits and nobody is subscribed; `peer_id` is this node where it is known.
    pub fn new(peer_id: Option<PeerBytes>) -> (r: Self)
        ensures
            r.well_formed(),
            r@.own == match peer_id {
                Some(p) => Some(p@),
                None => None::<Seq<u8>>,
            },
            r@.outbound == Map::<u64, Out>::empty(),
            r@.subscriptions == Map::<u64, (Option<Q>, Tx)>::empty(),
            r@.waiting == Map::<u64, Waiter<Chan, Out>>::empty(),
            r@.next == 0,
    {
        Actor {
            peer_id,
            response_senders: Pending::new(),
            request_subscriptions: Pending::new(),
            response_channels: Pending::new(),
            ids: SubscriptionIds::new(),
        }
    }

    /// Whether a request to `peer` is one this node sends itself.
    pub fn is_self(&self, peer: &PeerBytes) -> (r: bool)
        ensures
            r == (self@.own == Some(peer@)),
    {
        match &self.peer_id {
            Some(own) => bytes_eq(own, peer),
            None => false,
        }
    }

    /// A request went out to another node under `request_id`: `sender` waits for the
    /// answer.
    pub fn record_outbound(&mut self, request_id: u64, sender: Out)
        requires
            old(self).well_formed(),
        ensures
            final(self).well_formed(),
            final(self)@ == (ReqRespState { outbound: old(self)@.outbound.insert(request_id, sender), ..old(self)@ }),
    {
        let _ = self.response_senders.insert(request_id, sender);
    }

    /// The answer of another node to the request under `request_id` came: it goes to
    /// the caller waiting under that number, which then waits no more.
    pub fn on_response(&mut self, request_id: u64, response: Response) -> (r: Option<(Out, Response)>)
        requires
            old(self).well_formed(),
        ensures
            final(self).well_formed(),
            r == (if old(self)@.outbound.contains_key(request_id) {
                Some((old(self)@.outbound[request_id], response))
            } else {
                None
            }),
            final(self)@ == (ReqRespState { outbound: old(self)@.outbound.remove(request_id), ..old(self)@ }),
    {
        match self.response_senders.remove(request_id) {
            Some(sender) => Some((sender, response)),
            None => None,
        }
    }

    /// A new subscription, with the query its requests must match (none: requests
    /// without a topic), receiving them on `sender`. Its number is the lowest not handed
    /// out before, so it is no live subscription's.
    pub fn subscribe(&mut self, query: Option<Q>, sender: Tx) -> (r: SubscriptionId)
        requires
            old(self).well_formed(),
            old(self)@.next < u64::MAX,
        ensures
            final(self).well_formed(),
            SubscriptionIds::id_of(r) == old(self)@.next,
            !old(self)@.subscriptions.contains_key(old(self)@.next),
            final(self)@ == (ReqRespState {
                subscriptions: old(self)@.subscriptions.insert(old(self)@.next, (query, sender)),
                next: (old(self)@.next + 1) as u64,
                ..old(self)@
            }),
    {
        let id = self.ids.allocate();
        let n = SubscriptionIds::number(&id);
        let _ = self.request_subscriptions.insert(n, (query, sender));
        id
    }

    /// Ends the subscription `id`.
    pub fn unsubscribe(&mut self, id: SubscriptionId)
        requires
            old(self).well_formed(),
        ensures
            final(self).well_formed(),
            final(self)@ == (ReqRespState {
                subscriptions: old(self)@.subscriptions.remove(SubscriptionIds::id_of(id)),
                ..old(self)@
            }),
    {
        let n = SubscriptionIds::number(&id);
        let _ = self.request_subscriptions.remove(n);
    }

    /// The subscriptions, each with its number, for a request to be offered to.
    pub fn subscriptions(&self) -> (r: &HashMap<u64, (Option<Q>, Tx)>)
        ensures
            r@ == self@.subscriptions,
    {
        self.request_subscriptions.entries()
    }

    /// A request came under `id` for `waiter`, with `topic`; `taken` tells whether a
    /// subscriber took it. If one did, the waiter waits for its answer; if none did, the
    /// waiter is handed back with the refusal to send it.
    pub fn route(&mut self, id: u64, waiter: Waiter<Chan, Out>, topic: Option<String>, taken: bool) -> (r: Option<(Waiter<Chan, Out>, Response)>)
        requires
            old(self).well_formed(),
        ensures
            final(self).well_formed(),
            taken ==> r is None && final(self)@ == (ReqRespState { waiting: old(self)@.waiting.insert(id, waiter), ..old(self)@ }),
            !taken ==> r == Some((waiter, refusal(topic))) && final(self)@ == old(self)@,
    {
        if taken {
            let _ = self.response_channels.insert(id, waiter);
            None
        } else {
            Some((waiter, Response::Error(ResponseError::TopicNotSubscribed(topic))))
        }
    }

    /// A subscriber answered the request under `id`: the answer goes to whoever waits
    /// under that number, who then waits no more; where nobody waits, it goes nowhere.
    pub fn respond(&mut self, id: u64, response: Response) -> (r: Option<(Waiter<Chan, Out>, Response)>)
        requires
            old(self).well_formed(),
        ensures
            final(self).well_formed(),
            r == (if old(self)@.waiting.contains_key(id) {
                Some((old(self)@.waiting[id], response))
            } else {
                None
            }),
            final(self)@ == (ReqRespState { waiting: old(self)@.waiting.remove(id), ..old(self)@ }),
    {
        match self.response_channels.remove(id) {
            Some(waiter) => Some((waiter, response)),
            None => None,
        }
    }
}

/// A request that a subscriber took is answered, once, to whoever waits for it: the
/// answer of `respond` after `route` with `taken` goes to that waiter, and everyone
/// else waits as before.
pub proof fn lemma_answer_reaches_waiter<Chan, Out>(
    waiting: Map<u64, Waiter<Chan, Out>>,
    id: u64,
    waiter: Waiter<Chan, Out>,
)
    ensures
        waiting.insert(id, waiter).contains_key(id),
        waiting.insert(id, waiter)[id] == waiter,
        waiting.insert(id, waiter).remove(id) == waiting.remove(id),
        !waiting.insert(id, waiter).remove(id).contains_key(id),
{
    assert(waiting.insert(id, waiter).remove(id) =~= waiting.remove(id));
}

} // verus!
