//! The debug events that nodes report about the messages they send: requests, their
//! answers, and messages published to a topic.
use vstd::prelude::*;

use crate::graph::PeerBytes;

verus! {

/// Why a request was answered with an error.
pub enum ResponseError {
    /// No answer came in time.
    Timeout,
    /// The receiver has no subscription for the request's topic, if it had one.
    TopicNotSubscribed(Option<String>),
    /// The receiving script failed, for this reason.
    Script(String),
}

/// The answer to a request.
pub enum Response {
    Data(Vec<u8>),
    Error(ResponseError),
}

/// A request: its payload and the topic it was sent under, if any.
pub struct Request {
    pub data: Vec<u8>,
    pub topic: Option<String>,
}

/// A request that a node sent to one of its neighbours.
pub struct RequestDebugEvent {
    pub id: u128,
    pub receiver: PeerBytes,
    pub msg: Request,
}

/// The answer to an earlier request.
pub struct ResponseDebugEvent {
    pub req_id: u128,
    pub response: Response,
}

/// A message published to a topic.
pub struct GossipsubMessage {
    pub data: Vec<u8>,
    pub topic: String,
}

/// What kind of message a node sent.
pub enum MessageDebugEventType {
    Request(RequestDebugEvent),
    Response(ResponseDebugEvent),
    GossipSub(GossipsubMessage),
}

/// A message and the node that sent it.
pub struct MessageDebugEvent {
    pub sender: PeerBytes,
    pub event: MessageDebugEventType,
}

} // verus!
