//! What the control interface does with a call: which request a message
//! type and its payload make, which checks a message to send goes through,
//! and how a new node is added and announced.
use vstd::prelude::*;

use crate::config::Configurations;
use crate::manifest::{dependency_keys, manifest_dependency_keys};
use crate::decimal::{decimal, push_decimal};
use crate::kinds::{ClientType, DroneType, NodeKind, ServerType};
use crate::message::{ChatRequest, ContentRequest, CreateChatRequest, Request};
use crate::simulation_controller::{
    client_ids, first_free, id_text, least_used_type, lemma_members_step, members, members_below, node_not_found, text_with_id,
    ControllerCommand, NodeEntry, NodeOrder, SimulationController,
};
use crate::node::SimControllerMessage;
use crate::message::Message;
use crate::text::{copy_text, same_text};
use crate::NodeId;

verus! {

/// The fields of a call's payload that the interface reads; each is absent
/// when the payload lacks it or holds a value of another type.
pub struct Payload {
    pub id: Option<u64>,
    pub from_id: Option<u64>,
    pub to_id: Option<u64>,
    pub message: Option<String>,
    pub name: Option<String>,
    pub private: Option<bool>,
    pub password: Option<String>,
    pub file_name: Option<String>,
    pub content: Option<String>,
}

/// The error text for a missing or invalid field `key`.
pub open spec fn missing(key: Seq<char>) -> Seq<char> {
    "Missing or invalid "@ + key
}

/// The request that message type `t` makes of payload `p`, or the error.
pub open spec fn request_for(t: Seq<char>, p: Payload) -> Result<Request, Seq<char>> {
    if t == "server-type"@ {
        Ok(Request::ServerType)
    } else if t == "join"@ {
        match p.id {
            Some(id) => Ok(Request::ChatRequest(ChatRequest::Join(id, p.password))),
            None => Err(missing("chat_id"@)),
        }
    } else if t == "leave"@ {
        match p.id {
            Some(id) => Ok(Request::ChatRequest(ChatRequest::Leave(id))),
            None => Err(missing("chat_id"@)),
        }
    } else if t == "send-message"@ {
        match (p.id, p.message) {
            (None, _) => Err(missing("chat_id"@)),
            (Some(_), None) => Err(missing("message"@)),
            (Some(id), Some(m)) => Ok(Request::ChatRequest(ChatRequest::SendMessage(id, m))),
        }
    } else if t == "create"@ {
        match p.name {
            Some(name) => Ok(Request::ChatRequest(ChatRequest::Create(CreateChatRequest {
                name,
                public: !(p.private == Some(true)),
                password: p.password,
            }))),
            None => Err(missing("name"@)),
        }
    } else if t == "delete"@ {
        match p.id {
            Some(id) => Ok(Request::ChatRequest(ChatRequest::Delete(id))),
            None => Err(missing("chat_id"@)),
        }
    } else if t == "get-chats"@ {
        Ok(Request::ChatRequest(ChatRequest::GetChats))
    } else if t == "get-messages"@ {
        match p.id {
            Some(id) => Ok(Request::ChatRequest(ChatRequest::GetMessages(id))),
            None => Err(missing("chat_id"@)),
        }
    } else if t == "list-public-files"@ {
        Ok(Request::ContentRequest(ContentRequest::ListPublicFiles))
    } else if t == "get-public-file"@ {
        match p.file_name {
            Some(f) => Ok(Request::ContentRequest(ContentRequest::GetPublicFile(f))),
            None => Err(missing("file_name"@)),
        }
    } else if t == "write-public-file"@ {
        match (p.file_name, p.content) {
            (None, _) => Err(missing("file_name"@)),
            (Some(_), None) => Err(missing("content"@)),
            (Some(f), Some(c)) => Ok(Request::ContentRequest(ContentRequest::WritePublicFile(f, c))),
        }
    } else if t == "list-private-files"@ {
        Ok(Request::ContentRequest(ContentRequest::ListPrivateFiles))
    } else if t == "get-private-file"@ {
        match p.file_name {
            Some(f) => Ok(Request::ContentRequest(ContentRequest::GetPrivateFile(f))),
            None => Err(missing("file_name"@)),
        }
    } else if t == "write-private-file"@ {
        match (p.file_name, p.content) {
            (None, _) => Err(missing("file_name"@)),
            (Some(_), None) => Err(missing("content"@)),
            (Some(f), Some(c)) => Ok(Request::ContentRequest(ContentRequest::WritePrivateFile(f, c))),
        }
    } else {
        Err("Unsupported message type: "@ + t)
    }
}

/// `r` is the outcome that `expected` describes.
pub open spec fn outcome_is<T>(r: Result<T, String>, expected: Result<T, Seq<char>>) -> bool {
    match expected {
        Ok(v) => r == Ok::<T, String>(v),
        Err(text) => r matches Err(e) && e@ == text,
    }
}

/// The error text for a missing or invalid field.
fn missing_text(key: &str) -> (s: String)
    ensures
        s@ == missing(key@),
{
    let mut s = String::from_str("Missing or invalid ");
    s.append(key);
    s
}

/// The chat id of the payload.
fn chat_id(p: &Payload) -> (r: Result<u64, String>)
    ensures
        outcome_is(r, match p.id { Some(id) => Ok(id), None => Err(missing("chat_id"@)) }),
{
    match p.id {
        Some(id) => Ok(id),
        None => Err(missing_text("chat_id")),
    }
}

/// A text field of the payload.
fn text_field(v: &Option<String>, key: &str) -> (r: Result<String, String>)
    ensures
        outcome_is(r, match *v { Some(s) => Ok(s), None => Err(missing(key@)) }),
{
    match v {
        Some(s) => Ok(s.clone()),
        None => Err(missing_text(key)),
    }
}

/// The request that message type `msg_type` makes of `payload`: the chat
/// and content requests and the server-type request, each from the fields
/// it needs; an error naming the first missing field, or the unknown type.
pub fn gimme_request(msg_type: &str, payload: &Payload) -> (r: Result<Request, String>)
    ensures
        outcome_is(r, request_for(msg_type@, *payload)),
{
    if same_text(msg_type, "server-type") {
        Ok(Request::ServerType)
    } else if same_text(msg_type, "join") {
        let id = chat_id(payload)?;
        Ok(Request::ChatRequest(ChatRequest::Join(id, copy_text(&payload.password))))
    } else if same_text(msg_type, "leave") {
        let id = chat_id(payload)?;
        Ok(Request::ChatRequest(ChatRequest::Leave(id)))
    } else if same_text(msg_type, "send-message") {
        let id = chat_id(payload)?;
        let m = text_field(&payload.message, "message")?;
        Ok(Request::ChatRequest(ChatRequest::SendMessage(id, m)))
    } else if same_text(msg_type, "create") {
        let name = text_field(&payload.name, "name")?;
        let private = match payload.private {
            Some(b) => b,
            None => false,
        };
        Ok(Request::ChatRequest(ChatRequest::Create(CreateChatRequest {
            name,
            public: !private,
            password: copy_text(&payload.password),
        })))
    } else if same_text(msg_type, "delete") {
        let id = chat_id(payload)?;
        Ok(Request::ChatRequest(ChatRequest::Delete(id)))
    } else if same_text(msg_type, "get-chats") {
        Ok(Request::ChatRequest(ChatRequest::GetChats))
    } else if same_text(msg_type, "get-messages") {
        let id = chat_id(payload)?;
        Ok(Request::ChatRequest(ChatRequest::GetMessages(id)))
    } else if same_text(msg_type, "list-public-files") {
        Ok(Request::ContentRequest(ContentRequest::ListPublicFiles))
    } else if same_text(msg_type, "get-public-file") {
        let f = text_field(&payload.file_name, "file_name")?;
        Ok(Request::ContentRequest(ContentRequest::GetPublicFile(f)))
    } else if same_text(msg_type, "write-public-file") {
        let f = text_field(&payload.file_name, "file_name")?;
        let c = text_field(&payload.content, "content")?;
        Ok(Request::ContentRequest(ContentRequest::WritePublicFile(f, c)))
    } else if same_text(msg_type, "list-private-files") {
        Ok(Request::ContentRequest(ContentRequest::ListPrivateFiles))
    } else if same_text(msg_type, "get-private-file") {
        let f = text_field(&payload.file_name, "file_name")?;
        Ok(Request::ContentRequest(ContentRequest::GetPrivateFile(f)))
    } else if same_text(msg_type, "write-private-file") {
        let f = text_field(&payload.file_name, "file_name")?;
        let c = text_field(&payload.content, "content")?;
        Ok(Request::ContentRequest(ContentRequest::WritePrivateFile(f, c)))
    } else {
        let mut e = String::from_str("Unsupported message type: ");
        e.append(msg_type);
        Err(e)
    }
}

/// What sending a message of type `t` with payload `p` through a network
/// of nodes `m` gives: the order for the sending client, or the error.
pub open spec fn send_outcome(m: Map<NodeId, NodeEntry>, t: Seq<char>, p: Payload) -> Result<ControllerCommand, Seq<char>> {
    match (p.from_id, p.to_id) {
        (None, _) => Err(missing("from_id"@)),
        (Some(_), None) => Err(missing("to_id"@)),
        (Some(from), Some(to)) => if from > 255 {
            Err("Invalid from_id: "@ + decimal(from as nat))
        } else if to > 255 {
            Err("Invalid to_id: "@ + decimal(to as nat))
        } else {
            match request_for(t, p) {
                Err(e) => Err("Invalid request: "@ + e),
                Ok(q) => if client_ids(m).contains(from as NodeId) {
                    Ok(ControllerCommand {
                        target: from as NodeId,
                        order: NodeOrder::SendMessage(SimControllerMessage::SendMessageToPeer(to as NodeId, Message::Request(q))),
                    })
                } else {
                    Err("Failed to send message: "@ + text_with_id("Client with ID "@, from as NodeId, " not found!"@))
                },
            }
        },
    }
}

/// The order that sends a message of type `msg_type` with `payload`: the
/// payload's `from_id` and `to_id` must be present and be node ids (at most
/// 255), the payload must make a request, and the sender must be a client.
pub fn send_message(controller: &SimulationController, msg_type: &str, payload: &Payload) -> (r: Result<ControllerCommand, String>)
    requires
        controller.wf(),
    ensures
        outcome_is(r, send_outcome(controller@, msg_type@, *payload)),
{
    let from_id: u64 = match payload.from_id {
        Some(id) => id,
        None => return Err(missing_text("from_id")),
    };
    let to_id: u64 = match payload.to_id {
        Some(id) => id,
        None => return Err(missing_text("to_id")),
    };
    if from_id > 255 {
        let mut e = String::from_str("Invalid from_id: ");
        push_decimal(&mut e, from_id);
        return Err(e);
    }
    if to_id > 255 {
        let mut e = String::from_str("Invalid to_id: ");
        push_decimal(&mut e, to_id);
        return Err(e);
    }
    let request = match gimme_request(msg_type, payload) {
        Ok(q) => q,
        Err(e) => {
            let mut t = String::from_str("Invalid request: ");
            t.append(e.as_str());
            return Err(t);
        },
    };
    match controller.send_request(from_id as u8, to_id as u8, request) {
        Ok(cmd) => Ok(cmd),
        Err(e) => {
            let mut t = String::from_str("Failed to send message: ");
            t.append(e.as_str());
            Err(t)
        },
    }
}

/// A node to add: a drone of an implementation or of a least used one, a
/// server or a client of a kind.
pub enum NewNode {
    Drone(Option<DroneType>),
    Server(ServerType),
    Client(ClientType),
}

/// The name of a drone implementation.
pub open spec fn drone_type_text(t: DroneType) -> Seq<char> {
    match t {
        DroneType::RustyDrones => "RustyDrones"@,
        DroneType::BagelBomber => "BagelBomber"@,
        DroneType::BobryWLocie => "BobryWLocie"@,
        DroneType::DRONE => "DRONE"@,
        DroneType::LedronJames => "LedronJames"@,
        DroneType::Lockheedrustin => "Lockheedrustin"@,
        DroneType::RustDoIt => "RustDoIt"@,
        DroneType::Rustbusters => "Rustbusters"@,
        DroneType::RustRoveri => "RustRoveri"@,
        DroneType::Skylink => "Skylink"@,
        DroneType::Rust => "Rust"@,
    }
}

/// The name of a server kind.
pub open spec fn server_type_name(t: ServerType) -> Seq<char> {
    match t {
        ServerType::Content => "Content"@,
        ServerType::Communication => "Communication"@,
    }
}

/// The name of a client kind.
pub open spec fn client_type_name(t: ClientType) -> Seq<char> {
    match t {
        ClientType::Chat => "Chat"@,
        ClientType::Web => "Web"@,
    }
}

/// The kind that node `n` gets in network `m`.
pub open spec fn new_kind(m: Map<NodeId, NodeEntry>, n: NewNode) -> NodeKind {
    match n {
        NewNode::Drone(Some(t)) => NodeKind::Drone(t),
        NewNode::Drone(None) => NodeKind::Drone(least_used_type(m)),
        NewNode::Server(t) => NodeKind::Server(t),
        NewNode::Client(t) => NodeKind::Client(t),
    }
}

/// The announcement of a new node `n`.
pub open spec fn created_text(n: NewNode) -> Seq<char> {
    match n {
        NewNode::Drone(Some(t)) => "Drone of type 'Some("@ + drone_type_text(t) + ")' created"@,
        NewNode::Drone(None) => "Drone of type 'None' created"@,
        NewNode::Server(t) => "Server of type '"@ + server_type_name(t) + "' created"@,
        NewNode::Client(t) => "Client of type '"@ + client_type_name(t) + "' created"@,
    }
}

/// The name of a drone implementation.
pub fn drone_type_str(t: DroneType) -> (s: &'static str)
    ensures
        s@ == drone_type_text(t),
{
    match t {
        DroneType::RustyDrones => "RustyDrones",
        DroneType::BagelBomber => "BagelBomber",
        DroneType::BobryWLocie => "BobryWLocie",
        DroneType::DRONE => "DRONE",
        DroneType::LedronJames => "LedronJames",
        DroneType::Lockheedrustin => "Lockheedrustin",
        DroneType::RustDoIt => "RustDoIt",
        DroneType::Rustbusters => "Rustbusters",
        DroneType::RustRoveri => "RustRoveri",
        DroneType::Skylink => "Skylink",
        DroneType::Rust => "Rust",
    }
}

/// Adds node `node` under the smallest unused id; returns the id and the
/// announcement.
pub fn add_node(controller: &mut SimulationController, node: NewNode) -> (r: (NodeId, String))
    requires
        old(controller).wf(),
        first_free(old(controller)@.dom(), 0) is Some,
    ensures
        final(controller).wf(),
        final(controller).active_configuration == old(controller).active_configuration,
        Some(r.0) == first_free(old(controller)@.dom(), 0),
        final(controller)@ == old(controller)@.insert(r.0, NodeEntry { kind: new_kind(old(controller)@, node), neighbours: Set::empty() }),
        r.1@ == created_text(node),
{
    match node {
        NewNode::Drone(group) => {
            let (id, _t) = controller.add_drone(None, group);
            let text = match group {
                Some(t) => {
                    let mut s = String::from_str("Drone of type 'Some(");
                    s.append(drone_type_str(t));
                    s.append(")' created");
                    s
                },
                None => String::from_str("Drone of type 'None' created"),
            };
            (id, text)
        },
        NewNode::Server(t) => {
            let id = controller.add_server(None, t);
            let mut s = String::from_str("Server of type '");
            s.append(
                match t {
                    ServerType::Content => "Content",
                    ServerType::Communication => "Communication",
                },
            );
            s.append("' created");
            (id, s)
        },
        NewNode::Client(t) => {
            let id = controller.add_client(None, t);
            let mut s = String::from_str("Client of type '");
            s.append(
                match t {
                    ClientType::Chat => "Chat",
                    ClientType::Web => "Web",
                },
            );
            s.append("' created");
            (id, s)
        },
    }
}

/// A node as the topology view shows it.
pub struct TopologyNode {
    pub id: NodeId,
    pub label: String,
    pub node_type: String,
    pub subtype: Option<String>,
}

/// The topology view: nodes and links.
pub struct Topology {
    pub nodes: Vec<TopologyNode>,
    pub edges: Vec<(NodeId, NodeId)>,
}

/// 0 for drones, 1 for servers, 2 for clients.
pub open spec fn kind_class(k: NodeKind) -> u8 {
    match k {
        NodeKind::Drone(_) => 0,
        NodeKind::Server(_) => 1,
        NodeKind::Client(_) => 2,
    }
}

/// The ids of the nodes of class `c` in `m`.
pub open spec fn ids_of_class(m: Map<NodeId, NodeEntry>, c: u8) -> Set<NodeId> {
    m.dom().filter(|k: NodeId| kind_class(m[k].kind) == c)
}

/// The ids of `m` in the order the topology view lists them: drones, then
/// servers, then clients, each in increasing order.
pub open spec fn topology_ids(m: Map<NodeId, NodeEntry>) -> Seq<NodeId> {
    members(ids_of_class(m, 0)) + members(ids_of_class(m, 1)) + members(ids_of_class(m, 2))
}

/// The label of node `id` of kind `kind`: "Drone <id>", "Server <id>" or
/// "Client <id>".
pub open spec fn node_label(id: NodeId, kind: NodeKind) -> Seq<char> {
    match kind {
        NodeKind::Drone(_) => text_with_id("Drone "@, id, ""@),
        NodeKind::Server(_) => text_with_id("Server "@, id, ""@),
        NodeKind::Client(_) => text_with_id("Client "@, id, ""@),
    }
}

/// The type of a node of kind `kind`: "drone", "server" or "client".
pub open spec fn node_type_text(kind: NodeKind) -> Seq<char> {
    match kind {
        NodeKind::Drone(_) => "drone"@,
        NodeKind::Server(_) => "server"@,
        NodeKind::Client(_) => "client"@,
    }
}

/// The subtype of a node of kind `kind`: the server or client kind in
/// lower case; none for drones.
pub open spec fn node_subtype(kind: NodeKind) -> Option<Seq<char>> {
    match kind {
        NodeKind::Drone(_) => None,
        NodeKind::Server(ServerType::Content) => Some("content"@),
        NodeKind::Server(ServerType::Communication) => Some("communication"@),
        NodeKind::Client(ClientType::Web) => Some("web"@),
        NodeKind::Client(ClientType::Chat) => Some("chat"@),
    }
}

/// The view of an optional text.
pub open spec fn text_view(o: Option<String>) -> Option<Seq<char>> {
    match o {
        Some(s) => Some(s@),
        None => None,
    }
}

/// `n` shows node `id` of kind `kind`.
pub open spec fn shows(n: TopologyNode, id: NodeId, kind: NodeKind) -> bool {
    &&& n.id == id
    &&& n.label@ == node_label(id, kind)
    &&& n.node_type@ == node_type_text(kind)
    &&& text_view(n.subtype) == node_subtype(kind)
}

/// `x` and `y` are linked, `x` being the smaller.
pub open spec fn link_pair(m: Map<NodeId, NodeEntry>, x: NodeId, y: NodeId) -> bool {
    x < y && m.contains_key(x) && m[x].neighbours.contains(y)
}

/// `p` comes before `q` in lexicographic order.
pub open spec fn pair_before(p: (NodeId, NodeId), q: (NodeId, NodeId)) -> bool {
    p.0 < q.0 || (p.0 == q.0 && p.1 < q.1)
}

/// `s` is strictly increasing in lexicographic order.
pub open spec fn pairs_increasing(s: Seq<(NodeId, NodeId)>) -> bool {
    forall|i: int, j: int| 0 <= i < j < s.len() ==> pair_before(#[trigger] s[i], #[trigger] s[j])
}

/// The topology view of node `id` of kind `kind`.
fn describe(id: NodeId, kind: NodeKind) -> (n: TopologyNode)
    ensures
        shows(n, id, kind),
{
    match kind {
        NodeKind::Drone(_) => TopologyNode {
            id,
            label: id_text("Drone ", id, ""),
            node_type: String::from_str("drone"),
            subtype: None,
        },
        NodeKind::Server(t) => TopologyNode {
            id,
            label: id_text("Server ", id, ""),
            node_type: String::from_str("server"),
            subtype: Some(String::from_str(match t {
                ServerType::Content => "content",
                ServerType::Communication => "communication",
            })),
        },
        NodeKind::Client(t) => TopologyNode {
            id,
            label: id_text("Client ", id, ""),
            node_type: String::from_str("client"),
            subtype: Some(String::from_str(match t {
                ClientType::Web => "web",
                ClientType::Chat => "chat",
            })),
        },
    }
}

/// Adds to `nodes` the nodes of class `c`, in increasing order of id.
fn push_nodes_of_class(controller: &SimulationController, c: u8, nodes: &mut Vec<TopologyNode>)
    ensures
        final(nodes)@.len() == old(nodes)@.len() + members(ids_of_class(controller@, c)).len(),
        forall|i: int| 0 <= i < old(nodes)@.len() ==> final(nodes)@[i] == old(nodes)@[i],
        forall|i: int| 0 <= i < members(ids_of_class(controller@, c)).len() ==> {
            let id = #[trigger] members(ids_of_class(controller@, c))[i];
            shows(final(nodes)@[old(nodes)@.len() + i], id, controller@[id].kind)
        },
{
    let ghost ids = ids_of_class(controller@, c);
    let ghost start = nodes@.len();
    let mut k: u16 = 0;
    while k < 256
        invariant
            k <= 256,
            ids == ids_of_class(controller@, c),
            nodes@.len() == start + members_below(ids, k as int).len(),
            start == old(nodes)@.len(),
            forall|i: int| 0 <= i < start ==> nodes@[i] == old(nodes)@[i],
            forall|i: int| 0 <= i < members_below(ids, k as int).len() ==> {
                let id = #[trigger] members_below(ids, k as int)[i];
                shows(nodes@[start + i], id, controller@[id].kind)
            },
        decreases 256 - k,
    {
        proof {
            lemma_members_step(ids, k as int);
        }
        let id: NodeId = k as u8;
        match controller.kind_of(id) {
            Some(kind) => {
                if kind_class_of(kind) == c {
                    nodes.push(describe(id, kind));
                }
            },
            None => {},
        }
        k = k + 1;
    }
}

/// 0 for drones, 1 for servers, 2 for clients.
fn kind_class_of(k: NodeKind) -> (c: u8)
    ensures
        c == kind_class(k),
{
    match k {
        NodeKind::Drone(_) => 0,
        NodeKind::Server(_) => 1,
        NodeKind::Client(_) => 2,
    }
}

/// The topology view of the network: its nodes (drones, then servers, then
/// clients, each in increasing order of id) and each link once, as a pair
/// whose first id is the smaller, in lexicographic order.
pub fn get_topology(controller: &SimulationController) -> (t: Topology)
    requires
        controller.wf(),
    ensures
        t.nodes@.len() == topology_ids(controller@).len(),
        forall|i: int| 0 <= i < t.nodes@.len() ==> shows(t.nodes@[i], topology_ids(controller@)[i], controller@[topology_ids(controller@)[i]].kind),
        pairs_increasing(t.edges@),
        forall|p: (NodeId, NodeId)| t.edges@.contains(p) <==> link_pair(controller@, p.0, p.1),
{
    let mut nodes: Vec<TopologyNode> = Vec::new();
    push_nodes_of_class(controller, 0, &mut nodes);
    push_nodes_of_class(controller, 1, &mut nodes);
    push_nodes_of_class(controller, 2, &mut nodes);
    let edges = link_pairs(controller);
    Topology { nodes, edges }
}

/// Each link once, as a pair whose first id is the smaller, in
/// lexicographic order.
fn link_pairs(controller: &SimulationController) -> (edges: Vec<(NodeId, NodeId)>)
    ensures
        pairs_increasing(edges@),
        forall|p: (NodeId, NodeId)| edges@.contains(p) <==> link_pair(controller@, p.0, p.1),
{
    let ghost m = controller@;
    let mut edges: Vec<(NodeId, NodeId)> = Vec::new();
    let mut a: u16 = 0;
    while a < 256
        invariant
            a <= 256,
            m == controller@,
            pairs_increasing(edges@),
            forall|i: int| 0 <= i < edges@.len() ==> (#[trigger] edges@[i]).0 < a,
            forall|i: int| 0 <= i < edges@.len() ==> link_pair(m, (#[trigger] edges@[i]).0, edges@[i].1),
            forall|x: NodeId, y: NodeId| x < a && #[trigger] link_pair(m, x, y) ==> edges@.contains((x, y)),
        decreases 256 - a,
    {
        let x: NodeId = a as u8;
        match controller.neighbours_of(x) {
            Some(ns) => {
                let mut b: u16 = a + 1;
                while b < 256
                    invariant
                        a < 256,
                        x == a,
                        a < b <= 256,
                        m == controller@,
                        m.contains_key(x),
                        ns@ == m[x].neighbours,
                        pairs_increasing(edges@),
                        forall|i: int| 0 <= i < edges@.len() ==> (#[trigger] edges@[i]).0 < a || (edges@[i].0 == a && edges@[i].1 < b),
                        forall|i: int| 0 <= i < edges@.len() ==> (#[trigger] edges@[i]).0 <= a,
                        forall|i: int| 0 <= i < edges@.len() ==> link_pair(m, (#[trigger] edges@[i]).0, edges@[i].1),
                        forall|x2: NodeId, y: NodeId| (x2 < a || (x2 == a && y < b)) && #[trigger] link_pair(m, x2, y) ==> edges@.contains((x2, y)),
                    decreases 256 - b,
                {
                    let y: NodeId = b as u8;
                    if ns.contains(&y) {
                        let ghost old_edges = edges@;
                        edges.push((x, y));
                        assert forall|x2: NodeId, y2: NodeId| (x2 < a || (x2 == a && y2 < b + 1)) && #[trigger] link_pair(m, x2, y2)
                            implies edges@.contains((x2, y2)) by {
                            if x2 == a && y2 == b {
                                assert(edges@[edges@.len() - 1] == (x2, y2));
                            } else {
                                assert(old_edges.contains((x2, y2)));
                                let i = choose|i: int| 0 <= i < old_edges.len() && old_edges[i] == (x2, y2);
                                assert(edges@[i] == (x2, y2));
                            }
                        }
                    }
                    b = b + 1;
                }
            },
            None => {
                assert forall|x2: NodeId, y: NodeId| x2 < a + 1 && #[trigger] link_pair(m, x2, y) implies edges@.contains((x2, y)) by {
                    assert(x2 != x);
                }
            },
        }
        a = a + 1;
    }
    assert forall|p: (NodeId, NodeId)| edges@.contains(p) <==> link_pair(m, p.0, p.1) by {
        if edges@.contains(p) {
            let i = choose|i: int| 0 <= i < edges@.len() && edges@[i] == p;
            assert(link_pair(m, edges@[i].0, edges@[i].1));
        }
    }
    edges
}

/// What the interface shows of one node.
pub struct NodeData {
    pub label: String,
    pub node_type: String,
    /// Each neighbour with its label and type.
    pub neighbours: Vec<(NodeId, String, String)>,
    pub subtype: Option<String>,
}

/// `d` shows node `id` of `m` and its neighbours, in increasing order of id.
pub open spec fn shows_node(d: NodeData, m: Map<NodeId, NodeEntry>, id: NodeId) -> bool {
    let ns = members(m[id].neighbours);
    &&& d.label@ == node_label(id, m[id].kind)
    &&& d.node_type@ == node_type_text(m[id].kind)
    &&& text_view(d.subtype) == node_subtype(m[id].kind)
    &&& d.neighbours@.len() == ns.len()
    &&& forall|i: int| 0 <= i < ns.len() ==> {
        let (n, label, t) = #[trigger] d.neighbours@[i];
        &&& n == ns[i]
        &&& label@ == node_label(n, m[n].kind)
        &&& t@ == node_type_text(m[n].kind)
    }
}

/// What the interface shows of node `id`; fails when there is no such node.
pub fn get_node_data(controller: &SimulationController, id: NodeId) -> (r: Result<NodeData, String>)
    requires
        controller.wf(),
    ensures
        controller@.contains_key(id) ==> (r matches Ok(d) && shows_node(d, controller@, id)),
        !controller@.contains_key(id) ==> (r matches Err(e) && e@ == node_not_found(id)),
{
    let kind = match controller.kind_of(id) {
        Some(k) => k,
        None => return Err(id_text("Node with ID ", id, " not found!")),
    };
    let ns = match controller.neighbours_of(id) {
        Some(ns) => ns,
        None => return Err(id_text("Node with ID ", id, " not found!")),
    };
    let ghost m = controller@;
    let mut neighbours: Vec<(NodeId, String, String)> = Vec::new();
    let mut k: u16 = 0;
    while k < 256
        invariant
            k <= 256,
            m == controller@,
            controller.wf(),
            m.contains_key(id),
            ns@ == m[id].neighbours,
            neighbours@.len() == members_below(ns@, k as int).len(),
            forall|i: int| 0 <= i < members_below(ns@, k as int).len() ==> {
                let (n, label, t) = #[trigger] neighbours@[i];
                &&& n == members_below(ns@, k as int)[i]
                &&& label@ == node_label(n, m[n].kind)
                &&& t@ == node_type_text(m[n].kind)
            },
        decreases 256 - k,
    {
        proof {
            lemma_members_step(ns@, k as int);
        }
        let n: NodeId = k as u8;
        if ns.contains(&n) {
            assert(m.contains_key(n));
            match controller.kind_of(n) {
                Some(nk) => {
                    let d = describe(n, nk);
                    neighbours.push((n, d.label, d.node_type));
                },
                None => {},
            }
        }
        k = k + 1;
    }
    let d = describe(id, kind);
    Ok(NodeData { label: d.label, node_type: d.node_type, neighbours, subtype: d.subtype })
}

/// An entry of the catalogue of nodes that can be added.
pub struct CatalogueEntry {
    pub name: String,
    pub node_type: String,
}

/// `s` begins with `p`.
pub open spec fn starts_with(s: Seq<char>, p: Seq<char>) -> bool {
    p.len() <= s.len() && s.take(p.len() as int) == p
}

/// `c` in capitals, when it is a lower-case ASCII letter.
pub open spec fn ascii_upper(c: char) -> char {
    if c == 'a' {
        'A'
    } else if c == 'b' {
        'B'
    } else if c == 'c' {
        'C'
    } else if c == 'd' {
        'D'
    } else if c == 'e' {
        'E'
    } else if c == 'f' {
        'F'
    } else if c == 'g' {
        'G'
    } else if c == 'h' {
        'H'
    } else if c == 'i' {
        'I'
    } else if c == 'j' {
        'J'
    } else if c == 'k' {
        'K'
    } else if c == 'l' {
        'L'
    } else if c == 'm' {
        'M'
    } else if c == 'n' {
        'N'
    } else if c == 'o' {
        'O'
    } else if c == 'p' {
        'P'
    } else if c == 'q' {
        'Q'
    } else if c == 'r' {
        'R'
    } else if c == 's' {
        'S'
    } else if c == 't' {
        'T'
    } else if c == 'u' {
        'U'
    } else if c == 'v' {
        'V'
    } else if c == 'w' {
        'W'
    } else if c == 'x' {
        'X'
    } else if c == 'y' {
        'Y'
    } else if c == 'z' {
        'Z'
    } else {
        c
    }
}

/// The display form of the first `n` characters of `s`: underscores are
/// dropped, and a character that starts the text or follows an underscore
/// is put in capitals.
pub open spec fn pascal_prefix(s: Seq<char>, n: int) -> Seq<char>
    decreases n,
{
    if n <= 0 {
        Seq::empty()
    } else {
        let rest = pascal_prefix(s, n - 1);
        let c = s[n - 1];
        if c == '_' {
            rest
        } else if n == 1 || s[n - 2] == '_' {
            rest.push(ascii_upper(c))
        } else {
            rest.push(c)
        }
    }
}

/// The name under which the drone crate `crate_name` is shown: the part after
/// "wg_drone_", each underscore-separated word capitalised and the
/// underscores dropped ("wg_drone_rusty_drones" shows as "RustyDrones").
pub open spec fn drone_display_name(crate_name: Seq<char>) -> Seq<char> {
    let rest = if starts_with(crate_name, "wg_drone_"@) { crate_name.skip(9) } else { crate_name };
    pascal_prefix(rest, rest.len() as int)
}

/// The capital of `c` as text, when `c` is a lower-case ASCII letter.
fn upper_letter(c: char) -> (r: Option<&'static str>)
    ensures
        r matches Some(s) ==> s@ == seq![ascii_upper(c)],
        r is None ==> ascii_upper(c) == c,
{
    proof {
        reveal_strlit("A");
        reveal_strlit("B");
        reveal_strlit("C");
        reveal_strlit("D");
        reveal_strlit("E");
        reveal_strlit("F");
        reveal_strlit("G");
        reveal_strlit("H");
        reveal_strlit("I");
        reveal_strlit("J");
        reveal_strlit("K");
        reveal_strlit("L");
        reveal_strlit("M");
        reveal_strlit("N");
        reveal_strlit("O");
        reveal_strlit("P");
        reveal_strlit("Q");
        reveal_strlit("R");
        reveal_strlit("S");
        reveal_strlit("T");
        reveal_strlit("U");
        reveal_strlit("V");
        reveal_strlit("W");
        reveal_strlit("X");
        reveal_strlit("Y");
        reveal_strlit("Z");
    }
    match c {
        'a' => Some("A"),
        'b' => Some("B"),
        'c' => Some("C"),
        'd' => Some("D"),
        'e' => Some("E"),
        'f' => Some("F"),
        'g' => Some("G"),
        'h' => Some("H"),
        'i' => Some("I"),
        'j' => Some("J"),
        'k' => Some("K"),
        'l' => Some("L"),
        'm' => Some("M"),
        'n' => Some("N"),
        'o' => Some("O"),
        'p' => Some("P"),
        'q' => Some("Q"),
        'r' => Some("R"),
        's' => Some("S"),
        't' => Some("T"),
        'u' => Some("U"),
        'v' => Some("V"),
        'w' => Some("W"),
        'x' => Some("X"),
        'y' => Some("Y"),
        'z' => Some("Z"),
        _ => None,
    }
}

/// The name under which the drone crate `crate_name` is shown (see
/// `drone_display_name`).
pub fn display_name(crate_name: &str) -> (r: String)
    ensures
        r@ == drone_display_name(crate_name@),
{
    proof {
        reveal_strlit("wg_drone_");
    }
    let start: usize = if text_starts_with(crate_name, "wg_drone_") { 9 } else { 0 };
    let n = crate_name.unicode_len();
    let ghost rest = if starts_with(crate_name@, "wg_drone_"@) { crate_name@.skip(9) } else { crate_name@ };
    assert(rest =~= crate_name@.subrange(start as int, n as int));
    let mut r = String::new();
    let mut i: usize = start;
    while i < n
        invariant
            start <= i <= n,
            n == crate_name@.len(),
            rest =~= crate_name@.subrange(start as int, n as int),
            r@ == pascal_prefix(rest, i - start),
        decreases n - i,
    {
        let c = crate_name.get_char(i);
        assert(rest[i - start] == c);
        if c != '_' {
            let capital = i == start || crate_name.get_char(i - 1) == '_';
            proof {
                if i > start {
                    assert(rest[i - start - 1] == crate_name@[i - 1]);
                }
            }
            match upper_letter(c) {
                Some(u) => {
                    if capital {
                        r.append(u);
                    } else {
                        r.append(crate_name.substring_char(i, i + 1));
                    }
                },
                None => {
                    r.append(crate_name.substring_char(i, i + 1));
                },
            }
            assert(crate_name@.subrange(i as int, i + 1) =~= seq![c]);
        }
        i = i + 1;
    }
    r
}

/// The texts of a list of strings.
pub open spec fn texts(v: Seq<String>) -> Seq<Seq<char>> {
    v.map_values(|s: String| s@)
}

/// The display names of the names among the first `n` of `names` that begin
/// with "wg_drone_".
pub open spec fn drone_crates(names: Seq<Seq<char>>, n: int) -> Seq<Seq<char>>
    decreases n,
{
    if n <= 0 {
        Seq::empty()
    } else if starts_with(names[n - 1], "wg_drone_"@) {
        drone_crates(names, n - 1).push(drone_display_name(names[n - 1]))
    } else {
        drone_crates(names, n - 1)
    }
}

/// The catalogue, given the names of the crates the program depends on, if
/// they could be read: the built-in drone and a drone for each drone crate
/// among them (none when they could not be read), then the two clients and
/// the two servers.
pub open spec fn catalogue(names: Option<Seq<Seq<char>>>) -> Seq<(Seq<char>, Seq<char>)> {
    let drones: Seq<(Seq<char>, Seq<char>)> = match names {
        Some(ns) => seq![("Rust"@, "drone"@)] + drone_crates(ns, ns.len() as int).map_values(|n: Seq<char>| (n, "drone"@)),
        None => Seq::empty(),
    };
    drones + seq![
        ("Chat Client"@, "client"@),
        ("Web Client"@, "client"@),
        ("Content Server"@, "server"@),
        ("Communication Server"@, "server"@),
    ]
}

/// Whether `s` begins with `p`.
fn text_starts_with(s: &str, p: &str) -> (r: bool)
    ensures
        r == starts_with(s@, p@),
{
    let n = p.unicode_len();
    if n > s.unicode_len() {
        return false;
    }
    let mut i: usize = 0;
    while i < n
        invariant
            n == p@.len() <= s@.len(),
            i <= n,
            forall|j: int| 0 <= j < i ==> #[trigger] s@[j] == p@[j],
        decreases n - i,
    {
        if s.get_char(i) != p.get_char(i) {
            assert(s@.take(n as int)[i as int] != p@[i as int]);
            return false;
        }
        i = i + 1;
    }
    assert(s@.take(n as int) =~= p@);
    true
}

/// One catalogue entry.
fn entry(name: &str, node_type: &str) -> (e: CatalogueEntry)
    ensures
        e.name@ == name@,
        e.node_type@ == node_type@,
{
    CatalogueEntry { name: String::from_str(name), node_type: String::from_str(node_type) }
}

/// The catalogue of nodes that can be added, given the names of the crates
/// the program depends on, if they could be read: the built-in drone and a
/// drone for each crate whose name begins with "wg_drone_" (in the order
/// given, under its display name), then the chat and web clients and the
/// content and communication servers. Without the names, no drone is listed.
pub fn node_catalogue(names: Option<&Vec<String>>) -> (v: Vec<CatalogueEntry>)
    ensures
        v@.len() == catalogue(match names { Some(n) => Some(texts(n@)), None => None }).len(),
        forall|i: int| 0 <= i < v@.len() ==> {
            let cat = catalogue(match names { Some(n) => Some(texts(n@)), None => None });
            (#[trigger] v@[i]).name@ == cat[i].0 && v@[i].node_type@ == cat[i].1
        },
{
    let ghost cat = catalogue(match names { Some(n) => Some(texts(n@)), None => None });
    let ghost drones: Seq<(Seq<char>, Seq<char>)> = match names {
        Some(ns) => seq![("Rust"@, "drone"@)] + drone_crates(texts(ns@), ns@.len() as int).map_values(|n: Seq<char>| (n, "drone"@)),
        None => Seq::empty(),
    };
    let mut v: Vec<CatalogueEntry> = Vec::new();
    match names {
        Some(names) => {
            v.push(entry("Rust", "drone"));
            let mut i: usize = 0;
            while i < names.len()
                invariant
                    i <= names@.len(),
                    v@.len() == 1 + drone_crates(texts(names@), i as int).len(),
                    v@[0].name@ == "Rust"@ && v@[0].node_type@ == "drone"@,
                    forall|j: int| 0 <= j < drone_crates(texts(names@), i as int).len() ==>
                        (#[trigger] v@[j + 1]).name@ == drone_crates(texts(names@), i as int)[j] && v@[j + 1].node_type@ == "drone"@,
                decreases names@.len() - i,
            {
                if text_starts_with(names[i].as_str(), "wg_drone_") {
                    v.push(CatalogueEntry { name: display_name(names[i].as_str()), node_type: String::from_str("drone") });
                }
                i = i + 1;
            }
            proof {
                let d = drone_crates(texts(names@), names@.len() as int);
                assert forall|j: int| 0 <= j < v@.len() implies (#[trigger] v@[j]).name@ == drones[j].0 && v@[j].node_type@ == drones[j].1 by {
                    if j >= 1 {
                        assert(v@[(j - 1) + 1].name@ == d[j - 1]);
                    }
                }
            }
        },
        None => {},
    }
    let ghost mid = v@;
    assert(mid.len() == drones.len());
    let e0 = entry("Chat Client", "client");
    let e1 = entry("Web Client", "client");
    let e2 = entry("Content Server", "server");
    let e3 = entry("Communication Server", "server");
    let ghost tail = seq![e0, e1, e2, e3];
    v.push(e0);
    v.push(e1);
    v.push(e2);
    v.push(e3);
    assert(v@ =~= mid + tail);
    assert forall|j: int| 0 <= j < v@.len() implies (#[trigger] v@[j]).name@ == cat[j].0 && v@[j].node_type@ == cat[j].1 by {
        if j < mid.len() {
            assert(v@[j] == mid[j]);
        } else {
            assert(v@[j] == tail[j - mid.len()]);
        }
    }
    v
}

/// The catalogue of nodes that can be added, given the text of the
/// program's package manifest, if it could be read: the built-in drone and a
/// drone for each dependency whose name begins with "wg_drone_", under its
/// display name, then the two clients and the two servers. When the text is
/// missing, is not TOML or has no `[dependencies]` table, no drone is listed.
pub fn get_nodes(manifest: Option<&str>) -> (v: Vec<CatalogueEntry>)
    ensures
        ({
            let cat = catalogue(match manifest { Some(t) => manifest_dependency_keys(t@), None => None });
            &&& v@.len() == cat.len()
            &&& forall|i: int| 0 <= i < v@.len() ==> (#[trigger] v@[i]).name@ == cat[i].0 && v@[i].node_type@ == cat[i].1
        }),
{
    let names = match manifest {
        Some(text) => dependency_keys(text),
        None => None,
    };
    node_catalogue(names.as_ref())
}

/// A configuration as the interface lists it.
pub struct ConfigurationSummary {
    pub is_active: bool,
    pub id: u8,
    pub name: String,
    pub description: String,
}

/// The available configurations as the interface lists them, in order,
/// marking the active one.
pub fn get_deserializable_configurations(controller: &SimulationController, configurations: &Configurations)
    -> (v: Vec<ConfigurationSummary>)
    ensures
        v@.len() == configurations.configuration@.len(),
        forall|i: int| 0 <= i < v@.len() ==> {
            let c = configurations.configuration@[i];
            &&& (#[trigger] v@[i]).id == c.id
            &&& v@[i].is_active == (c.id == controller.active_configuration)
            &&& v@[i].name@ == c.name@
            &&& v@[i].description@ == c.description@
        },
{
    let list = &configurations.configuration;
    let mut v: Vec<ConfigurationSummary> = Vec::new();
    let mut i: usize = 0;
    while i < list.len()
        invariant
            i <= list@.len(),
            list@ == configurations.configuration@,
            v@.len() == i,
            forall|j: int| 0 <= j < i ==> {
                let c = configurations.configuration@[j];
                &&& (#[trigger] v@[j]).id == c.id
                &&& v@[j].is_active == (c.id == controller.active_configuration)
                &&& v@[j].name@ == c.name@
                &&& v@[j].description@ == c.description@
            },
        decreases list@.len() - i,
    {
        let c = &list[i];
        v.push(ConfigurationSummary {
            is_active: c.id == controller.active_configuration,
            id: c.id,
            name: c.name.clone(),
            description: c.description.clone(),
        });
        i = i + 1;
    }
    v
}

/// A "create" call with a name asks for a chat of that name, public unless
/// the payload marks it private, protected by exactly the payload's
/// password (none when the payload has none).
pub proof fn lemma_create_carries_payload(p: Payload)
    requires
        p.name is Some,
    ensures
        request_for("create"@, p) == Ok::<Request, Seq<char>>(Request::ChatRequest(ChatRequest::Create(
            (CreateChatRequest { name: p.name->0, public: p.private != Some(true), password: p.password }),
        ))),
{
    reveal_strlit("create");
    reveal_strlit("server-type");
    reveal_strlit("join");
    reveal_strlit("leave");
    reveal_strlit("send-message");
    assert("create"@.len() == 6);
    assert("create"@ != "server-type"@) by { assert("server-type"@.len() == 11); }
    assert("create"@ != "join"@) by { assert("join"@.len() == 4); }
    assert("create"@ != "leave"@) by { assert("leave"@.len() == 5); }
    assert("create"@ != "send-message"@) by { assert("send-message"@.len() == 12); }
}

} // verus!
