//! What the command line client shows for each request it made of a node: the fields of
//! each result and the templates they fill.
use vstd::prelude::*;

use crate::debug_events::{Response, ResponseError};
use crate::out::{CommandOutput, OutputView};
use crate::text::utf8_string;

verus! {

/// Why a result could not be shown.
pub enum ReportError {
    /// Some data was not UTF-8 text.
    NotUtf8,
    /// The node answered a request with an error.
    Response(ResponseError),
}

/// The output is a result with these fields, in order, and these templates.
pub open spec fn shows(o: OutputView, fields: Seq<(Seq<char>, Seq<char>)>, tty: Seq<char>, non_tty: Seq<char>) -> bool {
    &&& o is Result
    &&& o->fields =~= fields
    &&& o->tty_template =~= tty
    &&& o->non_tty_template =~= non_tty
}

/// A text given, or the default one where there is none.
pub open spec fn or_text(t: Option<String>, default: Seq<char>) -> Seq<char> {
    match t {
        Some(s) => s@,
        None => default,
    }
}

fn or_string(t: Option<String>, default: &str) -> (r: String)
    ensures
        r@ == or_text(t, default@),
{
    match t {
        Some(s) => s,
        None => default.to_owned(),
    }
}

/// The text that bytes encode, or why they do not.
fn text_of(bytes: Vec<u8>) -> (r: Result<String, ReportError>)
    ensures
        vstd::utf8::valid_utf8(bytes@) ==> (r matches Ok(s) && s@ == vstd::utf8::decode_utf8(bytes@)),
        !vstd::utf8::valid_utf8(bytes@) ==> r matches Err(ReportError::NotUtf8),
{
    match utf8_string(bytes) {
        Some(s) => Ok(s),
        None => Err(ReportError::NotUtf8),
    }
}

/// An image was deployed on a peer, the local node if none was named.
pub fn deployed(image: String, peer: Option<String>) -> (r: CommandOutput)
    ensures
        shows(r@, 
            seq![("image"@, image@), ("peer"@, or_text(peer, "local"@))],
            "Deployed { {image} } on { {peer} }"@,
            "{image}"@,
        ),
{
    CommandOutput::result()
        .with_field("image", image)
        .with_field("peer", or_string(peer, "local"))
        .with_tty_template("Deployed { {image} } on { {peer} }")
        .with_non_tty_template("{image}")
}

/// A running script or app: its image, id and name, if it has one.
pub fn running_script(image: String, id: String, name: Option<String>) -> (r: CommandOutput)
    ensures
        name is None ==> shows(r@, 
            seq![("image"@, image@), ("id"@, id@)],
            "💾 { image: {image}, id: {id} }"@,
            "{image},{id}"@,
        ),
        name matches Some(n) ==> shows(r@, 
            seq![("image"@, image@), ("id"@, id@), ("name"@, n@)],
            "💾 { name: {name}, image: {image}, id: {id} }"@,
            "{name},{image},{id}"@,
        ),
{
    let out = CommandOutput::result().with_field("image", image).with_field("id", id);
    match name {
        Some(name) => out
            .with_field("name", name)
            .with_tty_template("💾 { name: {name}, image: {image}, id: {id} }")
            .with_non_tty_template("{name},{image},{id}"),
        None => out.with_tty_template("💾 { image: {image}, id: {id} }").with_non_tty_template("{image},{id}"),
    }
}

/// A script or app was stopped on a peer, the local node if none was named.
pub fn stopped(peer: Option<String>, id: String) -> (r: CommandOutput)
    ensures
        shows(r@, 
            seq![("peer"@, or_text(peer, "local"@)), ("id"@, id@)],
            "Stopped { {id} } on { {peer} }"@,
            "{peer},{id}"@,
        ),
{
    CommandOutput::result()
        .with_field("peer", or_string(peer, "local"))
        .with_field("id", id)
        .with_tty_template("Stopped { {id} } on { {peer} }")
        .with_non_tty_template("{peer},{id}")
}

/// The value read under a key, in a topic or none, or that there was none; refused where
/// the value is not UTF-8.
pub fn kv_retrieved(topic: Option<String>, key: String, value: Option<Vec<u8>>) -> (r: Result<CommandOutput, ReportError>)
    ensures
        ({
            let tty = if topic is Some {
                "🔑 Retrieved { {value} } under { {key} } in topic { {topic} }"@
            } else {
                "🔑 Retrieved { {value} } under { {key} }"@
            };
            match value {
                Some(v) => if vstd::utf8::valid_utf8(v@) {
                    r matches Ok(o) && shows(o@, 
                        seq![("topic"@, or_text(topic, ""@)), ("key"@, key@), ("value"@, vstd::utf8::decode_utf8(v@))],
                        tty,
                        "{value}"@,
                    )
                } else {
                    r matches Err(ReportError::NotUtf8)
                },
                None => r matches Ok(o) && shows(o@, 
                    seq![("topic"@, or_text(topic, ""@)), ("key"@, key@)],
                    tty,
                    "Unable to retrieve key {key} in {topic}"@,
                ),
            }
        }),
{
    let template: &'static str = match topic {
        Some(_) => "🔑 Retrieved { {value} } under { {key} } in topic { {topic} }",
        None => "🔑 Retrieved { {value} } under { {key} }",
    };
    let topic = or_string(topic, "");
    match value {
        Some(v) => {
            let text = match text_of(v) {
                Ok(t) => t,
                Err(e) => return Err(e),
            };
            Ok(CommandOutput::result()
                .with_field("topic", topic)
                .with_field("key", key)
                .with_field("value", text)
                .with_tty_template(template)
                .with_non_tty_template("{value}"))
        },
        None => Ok(CommandOutput::result()
            .with_field("topic", topic)
            .with_field("key", key)
            .with_tty_template(template)
            .with_non_tty_template("Unable to retrieve key {key} in {topic}")),
    }
}

/// A value was stored under a key, in a topic or none.
pub fn kv_added(topic: Option<String>, key: String, value: String) -> (r: CommandOutput)
    ensures
        shows(r@, 
            seq![("topic"@, or_text(topic, ""@)), ("key"@, key@), ("value"@, value@)],
            if topic is Some {
                "🔑 Added { {value} } under { {key} } in topic { {topic} }"@
            } else {
                "🔑 Added { {value} } under { {key} }"@
            },
            "{value},{key},{topic}"@,
        ),
{
    let template: &'static str = match topic {
        Some(_) => "🔑 Added { {value} } under { {key} } in topic { {topic} }",
        None => "🔑 Added { {value} } under { {key} }",
    };
    CommandOutput::result()
        .with_field("topic", or_string(topic, ""))
        .with_field("key", key)
        .with_field("value", value)
        .with_tty_template(template)
        .with_non_tty_template("{value},{key},{topic}")
}

/// The node now provides a key, in a topic or none.
pub fn providing(topic: Option<String>, key: String) -> (r: CommandOutput)
    ensures
        shows(r@, 
            seq![("topic"@, or_text(topic, ""@)), ("key"@, key@)],
            if topic is Some { "🔑 Now providing { {key} } in topic { {topic} }"@ } else { "🔑 Now providing { {key} }"@ },
            "{key},{topic}"@,
        ),
{
    let template: &'static str = match topic {
        Some(_) => "🔑 Now providing { {key} } in topic { {topic} }",
        None => "🔑 Now providing { {key} }",
    };
    CommandOutput::result()
        .with_field("topic", or_string(topic, ""))
        .with_field("key", key)
        .with_tty_template(template)
        .with_non_tty_template("{key},{topic}")
}

/// The node stopped providing a key, in a topic or none.
pub fn stopped_providing(topic: Option<String>, key: String) -> (r: CommandOutput)
    ensures
        shows(r@, 
            seq![("topic"@, or_text(topic, ""@)), ("key"@, key@)],
            if topic is Some {
                "🔑 Stopped providing { {key} } in topic { {topic} }"@
            } else {
                "🔑 Stopped providing { {key} }"@
            },
            "{key},{topic}"@,
        ),
{
    let template: &'static str = match topic {
        Some(_) => "🔑 Stopped providing { {key} } in topic { {topic} }",
        None => "🔑 Stopped providing { {key} }",
    };
    CommandOutput::result()
        .with_field("topic", or_string(topic, ""))
        .with_field("key", key)
        .with_tty_template(template)
        .with_non_tty_template("{key},{topic}")
}

/// A provider of a key was found.
pub fn provider_found(topic: String, key: String, provider: String) -> (r: CommandOutput)
    ensures
        shows(r@, 
            seq![("topic"@, topic@), ("key"@, key@), ("provider"@, provider@)],
            "🤖 { {provider} }"@,
            "{provider}"@,
        ),
{
    CommandOutput::result()
        .with_field("topic", topic)
        .with_field("key", key)
        .with_field("provider", provider)
        .with_tty_template("🤖 { {provider} }")
        .with_non_tty_template("{provider}")
}

/// A file was published under a content identifier.
pub fn published_file(cid: String) -> (r: CommandOutput)
    ensures
        shows(r@, seq![("cid"@, cid@)], "Published file as { {cid} }"@, "{cid}"@),
{
    CommandOutput::result()
        .with_field("cid", cid)
        .with_tty_template("Published file as { {cid} }")
        .with_non_tty_template("{cid}")
}

/// A file was downloaded to a local path.
pub fn downloaded_file(cid: String, local_path: String) -> (r: CommandOutput)
    ensures
        shows(r@, 
            seq![("cid"@, cid@), ("local_path"@, local_path@)],
            "Downloaded file to { {local_path} }"@,
            "{cid},{local_path}"@,
        ),
{
    CommandOutput::result()
        .with_field("cid", cid)
        .with_field("local_path", local_path)
        .with_tty_template("Downloaded file to { {local_path} }")
        .with_non_tty_template("{cid},{local_path}")
}

/// The identity of the local node.
pub fn whoami(peer_id: String) -> (r: CommandOutput)
    ensures
        shows(r@, seq![("peer_id"@, peer_id@)], "🤖 You are { {peer_id} }"@, "{peer_id}"@),
{
    CommandOutput::result()
        .with_field("peer_id", peer_id)
        .with_tty_template("🤖 You are { {peer_id} }")
        .with_non_tty_template("{peer_id}")
}

/// A request received from a peer, under a topic or none; refused where its data is not
/// UTF-8.
pub fn request_received(peer_id: String, topic: Option<String>, data: Vec<u8>, id: String) -> (r: Result<CommandOutput, ReportError>)
    ensures
        vstd::utf8::valid_utf8(data@) ==> (r matches Ok(o) && shows(o@, 
            seq![("peer_id"@, peer_id@), ("topic"@, or_text(topic, ""@)), ("data"@, vstd::utf8::decode_utf8(data@)), ("id"@, id@)],
            "💬 [ID: {id}] { peer: {peer_id}, topic: {topic}, data: {data} }"@,
            "{id},{peer_id},{topic},{data}"@,
        )),
        !vstd::utf8::valid_utf8(data@) ==> r matches Err(ReportError::NotUtf8),
{
    let topic = or_string(topic, "");
    let text = match text_of(data) {
        Ok(t) => t,
        Err(e) => return Err(e),
    };
    Ok(CommandOutput::result()
        .with_field("peer_id", peer_id)
        .with_field("topic", topic)
        .with_field("data", text)
        .with_field("id", id)
        .with_tty_template("💬 [ID: {id}] { peer: {peer_id}, topic: {topic}, data: {data} }")
        .with_non_tty_template("{id},{peer_id},{topic},{data}"))
}

/// The answer to a request sent: its data, or the error it carried; refused where the
/// data is not UTF-8.
pub fn response_received(response: Response) -> (r: Result<CommandOutput, ReportError>)
    ensures
        match response {
            Response::Data(d) => if vstd::utf8::valid_utf8(d@) {
                r matches Ok(o) && shows(o@, 
                    seq![("response"@, vstd::utf8::decode_utf8(d@))],
                    "🗨  {response}"@,
                    "{response}"@,
                )
            } else {
                r matches Err(ReportError::NotUtf8)
            },
            Response::Error(e) => r == Err::<CommandOutput, ReportError>(ReportError::Response(e)),
        },
{
    match response {
        Response::Data(data) => {
            let text = match text_of(data) {
                Ok(t) => t,
                Err(e) => return Err(e),
            };
            Ok(CommandOutput::result()
                .with_field("response", text)
                .with_tty_template("🗨  {response}")
                .with_non_tty_template("{response}"))
        },
        Response::Error(e) => Err(ReportError::Response(e)),
    }
}

/// An answer was sent to a request.
pub fn response_sent(id: String, response: String) -> (r: CommandOutput)
    ensures
        shows(r@, 
            seq![("id"@, id@), ("response"@, response@)],
            "Sent { {response} } for { {id} }"@,
            "{id},{response}"@,
        ),
{
    CommandOutput::result()
        .with_field("id", id)
        .with_field("response", response)
        .with_tty_template("Sent { {response} } for { {id} }")
        .with_non_tty_template("{id},{response}")
}

/// A message was published to a topic.
pub fn published_message(topic: String, message: String) -> (r: CommandOutput)
    ensures
        shows(r@, 
            seq![("topic"@, topic@), ("message"@, message@)],
            "📨 Published { {message} } to { {topic} }"@,
            "{message},{topic}"@,
        ),
{
    CommandOutput::result()
        .with_field("topic", topic)
        .with_field("message", message)
        .with_tty_template("📨 Published { {message} } to { {topic} }")
        .with_non_tty_template("{message},{topic}")
}

/// A message received on a topic: the peer it came through, its data and id, and its
/// author where known; refused where the data or id is not UTF-8.
pub fn received_message(propagation_source: String, topic: String, data: Vec<u8>, message_id: Vec<u8>, source: Option<String>) -> (r: Result<CommandOutput, ReportError>)
    ensures
        !(vstd::utf8::valid_utf8(data@) && vstd::utf8::valid_utf8(message_id@)) ==> r matches Err(ReportError::NotUtf8),
        vstd::utf8::valid_utf8(data@) && vstd::utf8::valid_utf8(message_id@) ==> (r matches Ok(o) && match source {
            None => shows(o@, 
                seq![("psource"@, propagation_source@), ("topic"@, topic@), ("message"@, vstd::utf8::decode_utf8(data@)), ("message_id"@, vstd::utf8::decode_utf8(message_id@))],
                "📨 { topic: {topic}, message: {message} }"@,
                "{topic},{message}"@,
            ),
            Some(s) => shows(o@, 
                seq![("psource"@, propagation_source@), ("topic"@, topic@), ("message"@, vstd::utf8::decode_utf8(data@)), ("message_id"@, vstd::utf8::decode_utf8(message_id@)), ("source"@, s@)],
                "📨 { topic: {topic}, message: {message}, source: {source} }"@,
                "{topic},{message},{source}"@,
            ),
        }),
{
    let message = match text_of(data) {
        Ok(t) => t,
        Err(e) => return Err(e),
    };
    let id = match text_of(message_id) {
        Ok(t) => t,
        Err(e) => return Err(e),
    };
    let output = CommandOutput::result()
        .with_field("psource", propagation_source)
        .with_field("topic", topic)
        .with_field("message", message)
        .with_field("message_id", id)
        .with_tty_template("📨 { topic: {topic}, message: {message} }")
        .with_non_tty_template("{topic},{message}");
    match source {
        Some(source) => Ok(output
            .with_field("source", source)
            .with_tty_template("📨 { topic: {topic}, message: {message}, source: {source} }")
            .with_non_tty_template("{topic},{message},{source}")),
        None => Ok(output),
    }
}

/// A neighbour event by the text of the peers it names.
pub enum NeighbourEventText {
    Init(Vec<String>),
    Discovered(String),
    Lost(String),
}

/// The fields of a neighbour event line.
pub open spec fn mesh_fields(source: Seq<char>, kind: Seq<char>, peer: Seq<char>) -> Seq<(Seq<char>, Seq<char>)> {
    seq![("source"@, source), ("type"@, kind), ("peer"@, peer)]
}

/// The lines shown for a neighbour event that `source` reported: one for each
/// neighbour it began with, else one for the neighbour it discovered or lost.
pub fn mesh_event_outputs(source: String, event: NeighbourEventText) -> (r: Vec<CommandOutput>)
    ensures
        match event {
            NeighbourEventText::Init(peers) => {
                &&& r@.len() == peers@.len()
                &&& forall|i: int| 0 <= i < r@.len() ==> shows(
                    #[trigger] r@[i]@,
                    mesh_fields(source@, "connected"@, peers@[i]@),
                    "📡 Connected { {peer} } to { {source} }"@,
                    "{peer},{source}"@,
                )
            },
            NeighbourEventText::Discovered(p) => {
                &&& r@.len() == 1
                &&& shows(r@[0]@, mesh_fields(source@, "discovered"@, p@), "📡 Discovered { {peer} } from { {source} }"@, "{peer},{source}"@)
            },
            NeighbourEventText::Lost(p) => {
                &&& r@.len() == 1
                &&& shows(r@[0]@, mesh_fields(source@, "lost"@, p@), "📡 Lost { {peer} } from { {source} }"@, "{peer},{source}"@)
            },
        },
{
    let mut r: Vec<CommandOutput> = Vec::new();
    match event {
        NeighbourEventText::Init(peers) => {
            let mut i: usize = 0;
            while i < peers.len()
                invariant
                    i <= peers.len(),
                    r@.len() == i,
                    forall|k: int| 0 <= k < i ==> shows(
                        #[trigger] r@[k]@,
                        mesh_fields(source@, "connected"@, peers@[k]@),
                        "📡 Connected { {peer} } to { {source} }"@,
                        "{peer},{source}"@,
                    ),
                decreases peers.len() - i,
            {
                let o = CommandOutput::result()
                    .with_field("source", source.clone())
                    .with_field("type", "connected".to_owned())
                    .with_field("peer", peers[i].clone())
                    .with_tty_template("📡 Connected { {peer} } to { {source} }")
                    .with_non_tty_template("{peer},{source}");
                r.push(o);
                i = i + 1;
            }
        },
        NeighbourEventText::Discovered(p) => {
            r.push(CommandOutput::result()
                .with_field("source", source)
                .with_field("type", "discovered".to_owned())
                .with_field("peer", p)
                .with_tty_template("📡 Discovered { {peer} } from { {source} }")
                .with_non_tty_template("{peer},{source}"));
        },
        NeighbourEventText::Lost(p) => {
            r.push(CommandOutput::result()
                .with_field("source", source)
                .with_field("type", "lost".to_owned())
                .with_field("peer", p)
                .with_tty_template("📡 Lost { {peer} } from { {source} }")
                .with_non_tty_template("{peer},{source}"));
        },
    }
    r
}

/// A message event, by the text of the peer and identifiers it names.
pub enum ServiceEvent {
    Request { receiver: String, id: String, topic: Option<String>, data: Vec<u8> },
    Response { id: String, response: Response },
    GossipSub { topic: String, data: Vec<u8> },
}

/// The line shown for a message event; refused where its data is not UTF-8, or where
/// an answer carried an error.
pub fn service_event_output(event: ServiceEvent) -> (r: Result<CommandOutput, ReportError>)
    ensures
        match event {
            ServiceEvent::Request { receiver, id, topic, data } => if vstd::utf8::valid_utf8(data@) {
                r matches Ok(o) && shows(
                    o@,
                    seq![("service"@, "req-res/request"@), ("receiver"@, receiver@), ("id"@, id@), ("topic"@, or_text(topic, ""@)), ("data"@, vstd::utf8::decode_utf8(data@))],
                    "💬 {{ receiver: {receiver}, id: {id}, data: {data} }}"@,
                    "{service},{receiver},{id},{topic},{data}"@,
                )
            } else {
                r matches Err(ReportError::NotUtf8)
            },
            ServiceEvent::Response { id, response } => match response {
                Response::Data(d) => if vstd::utf8::valid_utf8(d@) {
                    r matches Ok(o) && shows(
                        o@,
                        seq![("service"@, "resp-res/response"@), ("id"@, id@), ("data"@, vstd::utf8::decode_utf8(d@))],
                        "🗨️ {{ id: {id}, data: {data} }}"@,
                        "{service},{id},{data}"@,
                    )
                } else {
                    r matches Err(ReportError::NotUtf8)
                },
                Response::Error(e) => r == Err::<CommandOutput, ReportError>(ReportError::Response(e)),
            },
            ServiceEvent::GossipSub { topic, data } => if vstd::utf8::valid_utf8(data@) {
                r matches Ok(o) && shows(
                    o@,
                    seq![("service"@, "pub-sub"@), ("topic"@, topic@), ("data"@, vstd::utf8::decode_utf8(data@))],
                    "📨 {{ topic: {topic}, data: {data} }}"@,
                    "{service},{topic},{data}"@,
                )
            } else {
                r matches Err(ReportError::NotUtf8)
            },
        },
{
    match event {
        ServiceEvent::Request { receiver, id, topic, data } => {
            let topic = or_string(topic, "");
            let text = match text_of(data) {
                Ok(t) => t,
                Err(e) => return Err(e),
            };
            Ok(CommandOutput::result()
                .with_field("service", "req-res/request".to_owned())
                .with_field("receiver", receiver)
                .with_field("id", id)
                .with_field("topic", topic)
                .with_field("data", text)
                .with_tty_template("💬 {{ receiver: {receiver}, id: {id}, data: {data} }}")
                .with_non_tty_template("{service},{receiver},{id},{topic},{data}"))
        },
        ServiceEvent::Response { id, response } => {
            let bytes = match response {
                Response::Data(d) => d,
                Response::Error(e) => return Err(ReportError::Response(e)),
            };
            let text = match text_of(bytes) {
                Ok(t) => t,
                Err(e) => return Err(e),
            };
            Ok(CommandOutput::result()
                .with_field("service", "resp-res/response".to_owned())
                .with_field("id", id)
                .with_field("data", text)
                .with_tty_template("🗨️ {{ id: {id}, data: {data} }}")
                .with_non_tty_template("{service},{id},{data}"))
        },
        ServiceEvent::GossipSub { topic, data } => {
            let text = match text_of(data) {
                Ok(t) => t,
                Err(e) => return Err(e),
            };
            Ok(CommandOutput::result()
                .with_field("service", "pub-sub".to_owned())
                .with_field("topic", topic)
                .with_field("data", text)
                .with_tty_template("📨 {{ topic: {topic}, data: {data} }}")
                .with_non_tty_template("{service},{topic},{data}"))
        },
    }
}

/// The interfaces chosen for the mesh: the wireless one, and the B.A.T.M.A.N. interface
/// `bat0` on top of it.
pub fn initialized(wifi_interface: String) -> (r: CommandOutput)
    ensures
        shows(r@, seq![("wifi_interface"@, wifi_interface@), ("batman_interface"@, "bat0"@)], Seq::empty(), Seq::empty()),
{
    CommandOutput::result()
        .with_field("wifi_interface", wifi_interface)
        .with_field("batman_interface", "bat0".to_owned())
}

} // verus!
