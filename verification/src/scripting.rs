//! The bookkeeping of the scripting service between nodes: which local caller waits for
//! the answer to each request sent to another node, and which remote node waits for the
//! answer that the local script manager gives to its request.
//!
//! The network and the channels stay outside: their values pass through here as type
//! parameters (`Dep`, `Lst`, `Stp` for the callers waiting on a deployment, a listing
//! and a stop; `Chan` for the channel a remote node waits on; `Rx` for the receiving end
//! that hands requests to the script manager), and this module decides who gets what.
use vstd::prelude::*;

use crate::cid::Cid;
use crate::pending::Pending;

verus! {

/// A request one node sends another's script manager.
#[derive(Clone, Debug)]
pub enum Request<Z> {
    DeployImage { root_fs: Cid, compression: Z, ports: Vec<u16>, persistent: bool },
    ListContainers,
    StopContainer { id: u128 },
    StopAllContainers { kill: bool },
}

/// The answer of a script manager to a request.
#[derive(Debug)]
pub enum Response<S> {
    DeployedImage { result: Result<u128, String> },
    ListContainers { result: Result<Vec<S>, String> },
    StopContainer { result: Result<(), String> },
    StopAllContainers { result: Result<(), String> },
}

/// A request of another node, handed to the local script manager with the number it
/// is answered under.
#[derive(Clone, Debug)]
pub enum ActorToClient<Z> {
    DeployImage { root_fs: Cid, compression: Z, ports: Vec<u16>, persistent: bool, request_id: u64 },
    ListContainers { request_id: u64 },
    StopContainer { request_id: u64, id: u128 },
    StopAllContainers { request_id: u64, kill: bool },
}

/// The local script manager's answer to the request under `id`.
#[derive(Debug)]
pub enum ClientAnswer<S> {
    DeployedImage { id: u64, result: Result<u128, String> },
    ListContainersResponse { id: u64, result: Result<Vec<S>, String> },
    StopContainerResponse { id: u64, result: Result<(), String> },
}

/// Who gets which result: the caller waiting on a deployment, a listing or a stop, or
/// nobody, where no caller waits for it.
pub enum Delivery<Dep, Lst, Stp, S> {
    Deploy(Dep, Result<u128, String>),
    List(Lst, Result<Vec<S>, String>),
    Stop(Stp, Result<(), String>),
    Unmatched,
}

/// Who waits, by request number: local callers by the kind of request they sent, and
/// remote nodes waiting on the local script manager.
pub struct Inflight<Dep, Lst, Stp, Chan> {
    pub deploy: Map<u64, Dep>,
    pub list: Map<u64, Lst>,
    pub stop: Map<u64, Stp>,
    pub client: Map<u64, Chan>,
}

/// What the script manager is handed for the request `request` under `request_id`.
pub open spec fn to_client_spec<Z>(request_id: u64, request: Request<Z>) -> ActorToClient<Z> {
    match request {
        Request::DeployImage { root_fs, compression, ports, persistent } =>
            ActorToClient::DeployImage { root_fs, compression, ports, persistent, request_id },
        Request::ListContainers => ActorToClient::ListContainers { request_id },
        Request::StopContainer { id } => ActorToClient::StopContainer { request_id, id },
        Request::StopAllContainers { kill } => ActorToClient::StopAllContainers { request_id, kill },
    }
}

/// The request number an answer of the script manager is for.
pub open spec fn answer_id<S>(answer: ClientAnswer<S>) -> u64 {
    match answer {
        ClientAnswer::DeployedImage { id, .. } => id,
        ClientAnswer::ListContainersResponse { id, .. } => id,
        ClientAnswer::StopContainerResponse { id, .. } => id,
    }
}

/// The response that carries an answer of the script manager to the remote node.
pub open spec fn answer_response<S>(answer: ClientAnswer<S>) -> Response<S> {
    match answer {
        ClientAnswer::DeployedImage { result, .. } => Response::DeployedImage { result },
        ClientAnswer::ListContainersResponse { result, .. } => Response::ListContainers { result },
        ClientAnswer::StopContainerResponse { result, .. } => Response::StopContainer { result },
    }
}

/// Who gets the response `response` to the request under `id`.
pub open spec fn response_delivery<Dep, Lst, Stp, Chan, S>(
    s: Inflight<Dep, Lst, Stp, Chan>,
    id: u64,
    response: Response<S>,
) -> Delivery<Dep, Lst, Stp, S> {
    match response {
        Response::DeployedImage { result } => if s.deploy.contains_key(id) {
            Delivery::Deploy(s.deploy[id], result)
        } else {
            Delivery::Unmatched
        },
        Response::ListContainers { result } => if s.list.contains_key(id) {
            Delivery::List(s.list[id], result)
        } else {
            Delivery::Unmatched
        },
        Response::StopContainer { result } => if s.stop.contains_key(id) {
            Delivery::Stop(s.stop[id], result)
        } else {
            Delivery::Unmatched
        },
        Response::StopAllContainers { result } => if s.stop.contains_key(id) {
            Delivery::Stop(s.stop[id], result)
        } else {
            Delivery::Unmatched
        },
    }
}

/// Who waits after the response `response` to the request under `id` came: no caller
/// of its kind waits under `id` any more.
pub open spec fn after_response<Dep, Lst, Stp, Chan, S>(
    s: Inflight<Dep, Lst, Stp, Chan>,
    id: u64,
    response: Response<S>,
) -> Inflight<Dep, Lst, Stp, Chan> {
    match response {
        Response::DeployedImage { .. } => Inflight { deploy: s.deploy.remove(id), ..s },
        Response::ListContainers { .. } => Inflight { list: s.list.remove(id), ..s },
        _ => Inflight { stop: s.stop.remove(id), ..s },
    }
}

/// Who gets the error of a request under `id` that failed: the caller waiting on a
/// deployment under `id`, else the one waiting on a listing, else the one waiting on a
/// stop.
pub open spec fn failure_delivery<Dep, Lst, Stp, Chan, S>(
    s: Inflight<Dep, Lst, Stp, Chan>,
    id: u64,
    error: String,
) -> Delivery<Dep, Lst, Stp, S> {
    if s.deploy.contains_key(id) {
        Delivery::Deploy(s.deploy[id], Err(error))
    } else if s.list.contains_key(id) {
        Delivery::List(s.list[id], Err(error))
    } else if s.stop.contains_key(id) {
        Delivery::Stop(s.stop[id], Err(error))
    } else {
        Delivery::Unmatched
    }
}

/// Who waits after the request under `id` failed: the caller that got the error is
/// taken out.
pub open spec fn after_failure<Dep, Lst, Stp, Chan>(
    s: Inflight<Dep, Lst, Stp, Chan>,
    id: u64,
) -> Inflight<Dep, Lst, Stp, Chan> {
    if s.deploy.contains_key(id) {
        Inflight { deploy: s.deploy.remove(id), ..s }
    } else if s.list.contains_key(id) {
        Inflight { list: s.list.remove(id), ..s }
    } else {
        Inflight { stop: s.stop.remove(id), ..s }
    }
}

/// Who waits after a remote node's request under `id` came on `channel`: the node
/// waits on it where the request reached the script manager, and is dropped where not.
pub open spec fn after_request<Dep, Lst, Stp, Chan>(
    s: Inflight<Dep, Lst, Stp, Chan>,
    id: u64,
    channel: Chan,
    forwarded: bool,
) -> Inflight<Dep, Lst, Stp, Chan> {
    if forwarded {
        Inflight { client: s.client.insert(id, channel), ..s }
    } else {
        s
    }
}

/// Which callers a response is for: 0 for those waiting on a deployment, 1 on a
/// listing, 2 on a stop.
pub open spec fn response_kind<S>(response: Response<S>) -> int {
    match response {
        Response::DeployedImage { .. } => 0,
        Response::ListContainers { .. } => 1,
        _ => 2,
    }
}

/// The state with `sender` waiting under `id` among the callers of the response's kind.
pub open spec fn with_waiting<Dep, Lst, Stp, Chan, S>(
    s: Inflight<Dep, Lst, Stp, Chan>,
    id: u64,
    response: Response<S>,
    deploy: Dep,
    list: Lst,
    stop: Stp,
) -> Inflight<Dep, Lst, Stp, Chan> {
    match response {
        Response::DeployedImage { .. } => Inflight { deploy: s.deploy.insert(id, deploy), ..s },
        Response::ListContainers { .. } => Inflight { list: s.list.insert(id, list), ..s },
        _ => Inflight { stop: s.stop.insert(id, stop), ..s },
    }
}

/// A response reaches the caller that sent the request under its number, with the
/// result it carries; that caller then waits no more, and every other waits as before.
pub proof fn lemma_response_reaches_caller<Dep, Lst, Stp, Chan, S>(
    s: Inflight<Dep, Lst, Stp, Chan>,
    id: u64,
    response: Response<S>,
    deploy: Dep,
    list: Lst,
    stop: Stp,
)
    ensures
        ({
            let w = with_waiting(s, id, response, deploy, list, stop);
            &&& response_delivery(w, id, response) == match response {
                Response::DeployedImage { result } => Delivery::<Dep, Lst, Stp, S>::Deploy(deploy, result),
                Response::ListContainers { result } => Delivery::List(list, result),
                Response::StopContainer { result } => Delivery::Stop(stop, result),
                Response::StopAllContainers { result } => Delivery::Stop(stop, result),
            }
            &&& after_response(w, id, response) == after_response(s, id, response)
        }),
{
    let w = with_waiting(s, id, response, deploy, list, stop);
    match response {
        Response::DeployedImage { .. } => {
            assert(w.deploy.remove(id) =~= s.deploy.remove(id));
        },
        Response::ListContainers { .. } => {
            assert(w.list.remove(id) =~= s.list.remove(id));
        },
        _ => {
            assert(w.stop.remove(id) =~= s.stop.remove(id));
        },
    }
}

/// A caller gets at most one response: once one came under a number, a second of the
/// same kind under that number reaches nobody.
pub proof fn lemma_response_delivered_once<Dep, Lst, Stp, Chan, S>(
    s: Inflight<Dep, Lst, Stp, Chan>,
    id: u64,
    first: Response<S>,
    second: Response<S>,
)
    requires
        response_kind(first) == response_kind(second),
    ensures
        response_delivery(after_response(s, id, first), id, second) is Unmatched,
{
}

/// The error of a failed request reaches the caller that sent it, whatever kind of
/// request it was, and only that caller stops waiting.
pub proof fn lemma_failure_reaches_caller<Dep, Lst, Stp, Chan, S>(
    s: Inflight<Dep, Lst, Stp, Chan>,
    id: u64,
    error: String,
)
    requires
        !(s.deploy.contains_key(id) && s.list.contains_key(id)),
        !(s.deploy.contains_key(id) && s.stop.contains_key(id)),
        !(s.list.contains_key(id) && s.stop.contains_key(id)),
    ensures
        s.deploy.contains_key(id) ==> failure_delivery::<Dep, Lst, Stp, Chan, S>(s, id, error)
            == Delivery::<Dep, Lst, Stp, S>::Deploy(s.deploy[id], Err(error)),
        s.list.contains_key(id) ==> failure_delivery::<Dep, Lst, Stp, Chan, S>(s, id, error)
            == Delivery::<Dep, Lst, Stp, S>::List(s.list[id], Err(error)),
        s.stop.contains_key(id) ==> failure_delivery::<Dep, Lst, Stp, Chan, S>(s, id, error)
            == Delivery::<Dep, Lst, Stp, S>::Stop(s.stop[id], Err(error)),
        after_failure(s, id) == (Inflight {
            deploy: s.deploy.remove(id),
            list: s.list.remove(id),
            stop: s.stop.remove(id),
            client: s.client,
        }),
{
    if s.deploy.contains_key(id) {
        assert(s.list.remove(id) =~= s.list);
        assert(s.stop.remove(id) =~= s.stop);
    } else if s.list.contains_key(id) {
        assert(s.deploy.remove(id) =~= s.deploy);
        assert(s.stop.remove(id) =~= s.stop);
    } else {
        assert(s.deploy.remove(id) =~= s.deploy);
        assert(s.list.remove(id) =~= s.list);
    }
}

/// The script manager's answer to a remote request that reached it goes back on the
/// channel the request came on, once; a request that did not reach it gets no answer.
pub proof fn lemma_answer_reaches_requester<Dep, Lst, Stp, Chan>(
    s: Inflight<Dep, Lst, Stp, Chan>,
    id: u64,
    channel: Chan,
)
    ensures
        after_request(s, id, channel, true).client.contains_key(id),
        after_request(s, id, channel, true).client[id] == channel,
        after_request(s, id, channel, true).client.remove(id) == s.client.remove(id),
        !after_request(s, id, channel, true).client.remove(id).contains_key(id),
        !s.client.contains_key(id) ==> !after_request(s, id, channel, false).client.contains_key(id),
{
    assert(s.client.insert(id, channel).remove(id) =~= s.client.remove(id));
}

/// The bookkeeping of the scripting service.
pub struct Actor<Dep, Lst, Stp, Chan, Rx> {
    inflight_deploy: Pending<Dep>,
    inflight_list: Pending<Lst>,
    inflight_stop: Pending<Stp>,
    client_inflight: Pending<Chan>,
    to_client_receiver: Option<Rx>,
}

impl<Dep, Lst, Stp, Chan, Rx> View for Actor<Dep, Lst, Stp, Chan, Rx> {
    type V = Inflight<Dep, Lst, Stp, Chan>;

    closed spec fn view(&self) -> Inflight<Dep, Lst, Stp, Chan> {
        Inflight {
            deploy: self.inflight_deploy@,
            list: self.inflight_list@,
            stop: self.inflight_stop@,
            client: self.client_inflight@,
        }
    }
}

impl<Dep, Lst, Stp, Chan, Rx> Actor<Dep, Lst, Stp, Chan, Rx> {
    /// The receiving end the script manager has not taken yet.
    pub closed spec fn receiver(&self) -> Option<Rx> {
        self.to_client_receiver
    }

    /// Nobody waits; `receiver` is there for the script manager to take.
    pub fn new(receiver: Rx) -> (r: Self)
        ensures
            r@.deploy == Map::<u64, Dep>::empty(),
            r@.list == Map::<u64, Lst>::empty(),
            r@.stop == Map::<u64, Stp>::empty(),
            r@.client == Map::<u64, Chan>::empty(),
            r.receiver() == Some(receiver),
    {
        Actor {
            inflight_deploy: Pending::new(),
            inflight_list: Pending::new(),
            inflight_stop: Pending::new(),
            client_inflight: Pending::new(),
            to_client_receiver: Some(receiver),
        }
    }

    /// The script manager subscribes: it gets the receiving end the first time, and
    /// nothing after.
    pub fn subscribe(&mut self) -> (r: Option<Rx>)
        ensures
            r == old(self).receiver(),
            final(self).receiver() is None,
            final(self)@ == old(self)@,
    {
        self.to_client_receiver.take()
    }

    /// A deployment request went out under `id`: `sender` waits for its result.
    pub fn record_deploy(&mut self, id: u64, sender: Dep)
        ensures
            final(self)@ == (Inflight { deploy: old(self)@.deploy.insert(id, sender), ..old(self)@ }),
            final(self).receiver() == old(self).receiver(),
    {
        let _ = self.inflight_deploy.insert(id, sender);
    }

    /// A listing request went out under `id`: `sender` waits for its result.
    pub fn record_list(&mut self, id: u64, sender: Lst)
        ensures
            final(self)@ == (Inflight { list: old(self)@.list.insert(id, sender), ..old(self)@ }),
            final(self).receiver() == old(self).receiver(),
    {
        let _ = self.inflight_list.insert(id, sender);
    }

    /// A request to stop one or all scripts went out under `id`: `sender` waits for
    /// its result.
    pub fn record_stop(&mut self, id: u64, sender: Stp)
        ensures
            final(self)@ == (Inflight { stop: old(self)@.stop.insert(id, sender), ..old(self)@ }),
            final(self).receiver() == old(self).receiver(),
    {
        let _ = self.inflight_stop.insert(id, sender);
    }

    /// The response to the request under `id` came: it goes to the caller of its kind
    /// that waits under `id`, which then waits no more.
    pub fn on_response<S>(&mut self, id: u64, response: Response<S>) -> (r: Delivery<Dep, Lst, Stp, S>)
        ensures
            r == response_delivery(old(self)@, id, response),
            final(self)@ == after_response(old(self)@, id, response),
            final(self).receiver() == old(self).receiver(),
    {
        match response {
            Response::DeployedImage { result } => match self.inflight_deploy.remove(id) {
                Some(sender) => Delivery::Deploy(sender, result),
                None => Delivery::Unmatched,
            },
            Response::ListContainers { result } => match self.inflight_list.remove(id) {
                Some(sender) => Delivery::List(sender, result),
                None => Delivery::Unmatched,
            },
            Response::StopContainer { result } => match self.inflight_stop.remove(id) {
                Some(sender) => Delivery::Stop(sender, result),
                None => Delivery::Unmatched,
            },
            Response::StopAllContainers { result } => match self.inflight_stop.remove(id) {
                Some(sender) => Delivery::Stop(sender, result),
                None => Delivery::Unmatched,
            },
        }
    }

    /// The request under `id` failed with `error`: the caller waiting on it, of
    /// whichever kind, gets the error and waits no more.
    pub fn on_failure<S>(&mut self, id: u64, error: String) -> (r: Delivery<Dep, Lst, Stp, S>)
        ensures
            r == failure_delivery::<Dep, Lst, Stp, Chan, S>(old(self)@, id, error),
            final(self)@ == after_failure(old(self)@, id),
            final(self).receiver() == old(self).receiver(),
    {
        if self.inflight_deploy.contains(id) {
            match self.inflight_deploy.remove(id) {
                Some(sender) => Delivery::Deploy(sender, Err(error)),
                None => Delivery::Unmatched,
            }
        } else if self.inflight_list.contains(id) {
            match self.inflight_list.remove(id) {
                Some(sender) => Delivery::List(sender, Err(error)),
                None => Delivery::Unmatched,
            }
        } else {
            match self.inflight_stop.remove(id) {
                Some(sender) => Delivery::Stop(sender, Err(error)),
                None => Delivery::Unmatched,
            }
        }
    }

    /// A remote node's request came under `id` on `channel`; `forwarded` tells whether
    /// it reached the script manager. Only then does the node wait on the channel.
    pub fn on_request(&mut self, id: u64, channel: Chan, forwarded: bool)
        ensures
            final(self)@ == after_request(old(self)@, id, channel, forwarded),
            final(self).receiver() == old(self).receiver(),
    {
        if forwarded {
            let _ = self.client_inflight.insert(id, channel);
        }
    }

    /// The script manager answered: the answer goes, as a response, on the channel of
    /// the remote node waiting under its number, which then waits no more; where none
    /// waits, nothing is sent.
    pub fn answer<S>(&mut self, answer: ClientAnswer<S>) -> (r: Option<(Chan, Response<S>)>)
        ensures
            r == (if old(self)@.client.contains_key(answer_id(answer)) {
                Some((old(self)@.client[answer_id(answer)], answer_response(answer)))
            } else {
                None
            }),
            final(self)@ == (Inflight { client: old(self)@.client.remove(answer_id(answer)), ..old(self)@ }),
            final(self).receiver() == old(self).receiver(),
    {
        let (id, response) = match answer {
            ClientAnswer::DeployedImage { id, result } => (id, Response::DeployedImage { result }),
            ClientAnswer::ListContainersResponse { id, result } => (id, Response::ListContainers { result }),
            ClientAnswer::StopContainerResponse { id, result } => (id, Response::StopContainer { result }),
        };
        match self.client_inflight.remove(id) {
            Some(channel) => Some((channel, response)),
            None => None,
        }
    }
}

/// What the script manager is handed for a remote node's request under `request_id`:
/// the same request, with its number.
pub fn to_client<Z>(request_id: u64, request: Request<Z>) -> (r: ActorToClient<Z>)
    ensures
        r == to_client_spec(request_id, request),
{
    match request {
        Request::DeployImage { root_fs, compression, ports, persistent } =>
            ActorToClient::DeployImage { root_fs, compression, ports, persistent, request_id },
        Request::ListContainers => ActorToClient::ListContainers { request_id },
        Request::StopContainer { id } => ActorToClient::StopContainer { request_id, id },
        Request::StopAllContainers { kill } => ActorToClient::StopAllContainers { request_id, kill },
    }
}

} // verus!
