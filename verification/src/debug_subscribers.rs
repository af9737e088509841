//! Which nodes want this node's debug events: nodes announce on a shared topic that they
//! subscribe to neighbour events or message events, or that they stop.
use vstd::prelude::*;

use crate::graph::{bytes_eq, copy_bytes, lemma_push_set, lemma_remove_set, peer_views, position, PeerBytes};

verus! {

/// What a node announces on the debug topic.
pub enum ControlMessage {
    SubscribeNeighbours(PeerBytes),
    UnsubscribeNeighbours(PeerBytes),
    SubscribeMessages(PeerBytes),
    UnsubscribeMessages(PeerBytes),
}

/// What the local user asked of the debug service.
#[derive(Debug, Clone, Copy, PartialEq, Eq, Structural)]
pub enum DebugCommand {
    SubscribeNeighbourEvents,
    UnsubscribeNeighbourEvents,
    SubscribeMessageEvents,
    UnsubscribeMessageEvents,
}

/// The announcement that a command of the local node `own` makes.
pub fn announcement(command: DebugCommand, own: &PeerBytes) -> (r: ControlMessage)
    ensures
        match command {
            DebugCommand::SubscribeNeighbourEvents => r matches ControlMessage::SubscribeNeighbours(p) && p@ == own@,
            DebugCommand::UnsubscribeNeighbourEvents => r matches ControlMessage::UnsubscribeNeighbours(p) && p@ == own@,
            DebugCommand::SubscribeMessageEvents => r matches ControlMessage::SubscribeMessages(p) && p@ == own@,
            DebugCommand::UnsubscribeMessageEvents => r matches ControlMessage::UnsubscribeMessages(p) && p@ == own@,
        },
{
    let p = copy_bytes(own);
    match command {
        DebugCommand::SubscribeNeighbourEvents => ControlMessage::SubscribeNeighbours(p),
        DebugCommand::UnsubscribeNeighbourEvents => ControlMessage::UnsubscribeNeighbours(p),
        DebugCommand::SubscribeMessageEvents => ControlMessage::SubscribeMessages(p),
        DebugCommand::UnsubscribeMessageEvents => ControlMessage::UnsubscribeMessages(p),
    }
}

/// Adds `p` to a list of peers that holds none twice, unless it is there.
fn insert_peer(list: &mut Vec<PeerBytes>, p: &PeerBytes)
    requires
        peer_views(old(list)@).no_duplicates(),
    ensures
        peer_views(final(list)@).no_duplicates(),
        peer_views(final(list)@).to_set() == peer_views(old(list)@).to_set().insert(p@),
{
    let ghost before = peer_views(list@);
    match position(list, p) {
        Some(i) => {
            assert(before[i as int] == p@);
            assert(before.to_set().insert(p@) =~= before.to_set());
        },
        None => {
            list.push(copy_bytes(p));
            proof {
                assert(peer_views(list@) =~= before.push(p@));
                lemma_push_set(before, p@);
            }
        },
    }
}

/// Removes `p` from a list of peers that holds none twice.
fn remove_peer(list: &mut Vec<PeerBytes>, p: &PeerBytes)
    requires
        peer_views(old(list)@).no_duplicates(),
    ensures
        peer_views(final(list)@).no_duplicates(),
        peer_views(final(list)@).to_set() == peer_views(old(list)@).to_set().remove(p@),
{
    let ghost before = peer_views(list@);
    match position(list, p) {
        Some(i) => {
            assert(before[i as int] == p@);
            let _ = list.remove(i);
            proof {
                assert(peer_views(list@) =~= before.remove(i as int));
                lemma_remove_set(before, i as int);
            }
        },
        None => {
            assert(before.to_set().remove(p@) =~= before.to_set());
        },
    }
}

fn copy_peers(list: &Vec<PeerBytes>) -> (r: Vec<PeerBytes>)
    ensures
        peer_views(r@) == peer_views(list@),
{
    let mut r: Vec<PeerBytes> = Vec::new();
    let mut i: usize = 0;
    while i < list.len()
        invariant
            i <= list.len(),
            peer_views(r@) == peer_views(list@).take(i as int),
        decreases list.len() - i,
    {
        let ghost before = peer_views(r@);
        r.push(copy_bytes(&list[i]));
        assert(peer_views(r@) =~= before.push(peer_views(list@)[i as int]));
        assert(peer_views(list@).take(i + 1) =~= peer_views(list@).take(i as int).push(peer_views(list@)[i as int]));
        i = i + 1;
    }
    assert(peer_views(list@).take(i as int) =~= peer_views(list@));
    r
}

/// The nodes subscribed to this node's neighbour events and to its message events.
pub struct DebugSubscribers {
    neighbour_event_subscribers: Vec<PeerBytes>,
    message_event_subscribers: Vec<PeerBytes>,
}

impl DebugSubscribers {
    /// The nodes subscribed to neighbour events.
    pub closed spec fn neighbour_subscribers(&self) -> Set<Seq<u8>> {
        peer_views(self.neighbour_event_subscribers@).to_set()
    }

    /// The nodes subscribed to message events.
    pub closed spec fn message_subscribers(&self) -> Set<Seq<u8>> {
        peer_views(self.message_event_subscribers@).to_set()
    }

    /// No node is listed twice.
    pub closed spec fn well_formed(&self) -> bool {
        &&& peer_views(self.neighbour_event_subscribers@).no_duplicates()
        &&& peer_views(self.message_event_subscribers@).no_duplicates()
    }

    /// No subscriber.
    pub fn new() -> (r: DebugSubscribers)
        ensures
            r.well_formed(),
            r.neighbour_subscribers() == Set::<Seq<u8>>::empty(),
            r.message_subscribers() == Set::<Seq<u8>>::empty(),
    {
        let r = DebugSubscribers { neighbour_event_subscribers: Vec::new(), message_event_subscribers: Vec::new() };
        assert(peer_views(r.neighbour_event_subscribers@) =~= Seq::<Seq<u8>>::empty());
        assert(peer_views(r.message_event_subscribers@) =~= Seq::<Seq<u8>>::empty());
        assert(r.neighbour_subscribers() =~= Set::<Seq<u8>>::empty());
        assert(r.message_subscribers() =~= Set::<Seq<u8>>::empty());
        r
    }

    /// An announcement arrived from `source`; the local node `own` ignores its own. A
    /// node that subscribes to neighbour events is handed back: it is sent the current
    /// neighbours first.
    pub fn handle_control(&mut self, own: &PeerBytes, source: &PeerBytes, message: ControlMessage) -> (r: Option<PeerBytes>)
        requires
            old(self).well_formed(),
        ensures
            final(self).well_formed(),
            source@ == own@ ==> {
                &&& r is None
                &&& final(self).neighbour_subscribers() == old(self).neighbour_subscribers()
                &&& final(self).message_subscribers() == old(self).message_subscribers()
            },
            source@ != own@ ==> match message {
                ControlMessage::SubscribeNeighbours(p) => {
                    &&& r matches Some(q) && q@ == p@
                    &&& final(self).neighbour_subscribers() == old(self).neighbour_subscribers().insert(p@)
                    &&& final(self).message_subscribers() == old(self).message_subscribers()
                },
                ControlMessage::UnsubscribeNeighbours(p) => {
                    &&& r is None
                    &&& final(self).neighbour_subscribers() == old(self).neighbour_subscribers().remove(p@)
                    &&& final(self).message_subscribers() == old(self).message_subscribers()
                },
                ControlMessage::SubscribeMessages(p) => {
                    &&& r is None
                    &&& final(self).neighbour_subscribers() == old(self).neighbour_subscribers()
                    &&& final(self).message_subscribers() == old(self).message_subscribers().insert(p@)
                },
                ControlMessage::UnsubscribeMessages(p) => {
                    &&& r is None
                    &&& final(self).neighbour_subscribers() == old(self).neighbour_subscribers()
                    &&& final(self).message_subscribers() == old(self).message_subscribers().remove(p@)
                },
            },
    {
        if bytes_eq(source, own) {
            return None;
        }
        match message {
            ControlMessage::SubscribeNeighbours(p) => {
                insert_peer(&mut self.neighbour_event_subscribers, &p);
                Some(p)
            },
            ControlMessage::UnsubscribeNeighbours(p) => {
                remove_peer(&mut self.neighbour_event_subscribers, &p);
                None
            },
            ControlMessage::SubscribeMessages(p) => {
                insert_peer(&mut self.message_event_subscribers, &p);
                None
            },
            ControlMessage::UnsubscribeMessages(p) => {
                remove_peer(&mut self.message_event_subscribers, &p);
                None
            },
        }
    }

    /// The nodes to forward a neighbour event to: every subscriber, except for the event
    /// that reports the first neighbours, which none is sent.
    pub fn neighbour_event_targets(&self, is_init: bool) -> (r: Vec<PeerBytes>)
        requires
            self.well_formed(),
        ensures
            peer_views(r@).no_duplicates(),
            is_init ==> r@.len() == 0,
            !is_init ==> peer_views(r@).to_set() == self.neighbour_subscribers(),
    {
        if is_init {
            return Vec::new();
        }
        copy_peers(&self.neighbour_event_subscribers)
    }

    /// The nodes to forward a message event to: every subscriber.
    pub fn message_event_targets(&self) -> (r: Vec<PeerBytes>)
        requires
            self.well_formed(),
        ensures
            peer_views(r@).no_duplicates(),
            peer_views(r@).to_set() == self.message_subscribers(),
    {
        copy_peers(&self.message_event_subscribers)
    }
}

} // verus!
