//! The web client node.
use vstd::prelude::*;

use crate::message::{Message, Response};
use crate::node::SimControllerMessage;
use crate::wire::NodeType;
use crate::NodeId;

verus! {

/// A web client: it hands on the responses it receives.
pub struct WebBrowser {}

impl WebBrowser {
    /// A response received is handed on; a request gets nothing.
    pub fn handle_message(&mut self, peer_id: NodeId, message: Message) -> (r: Option<Response>)
        ensures
            match message {
                Message::Response(resp) => r == Some(resp),
                Message::Request(_) => r is None,
            },
    {
        match message {
            Message::Response(response) => Some(response),
            Message::Request(_) => None,
        }
    }

    /// Nothing to release.
    pub fn stop(&mut self) {
    }

    /// A web browser is a client node.
    pub fn get_node_type(&self) -> (t: NodeType)
        ensures
            t == NodeType::Client,
    {
        NodeType::Client
    }

    /// The name of this kind of node.
    pub fn get_node_type_str(&self) -> (s: &'static str)
        ensures
            s@ == "WebBrowser"@,
    {
        "WebBrowser"
    }

    /// A request of the controller: send the message to the peer, in a new
    /// session.
    pub fn handle_control_message(&mut self, message: SimControllerMessage) -> (r: Option<(NodeId, Option<u64>, Message)>)
        ensures
            message matches SimControllerMessage::SendMessageToPeer(p, m) && r == Some((p, None::<u64>, m)),
    {
        match message {
            SimControllerMessage::SendMessageToPeer(peer_id, message) => Some((peer_id, None, message)),
        }
    }
}

} // verus!
