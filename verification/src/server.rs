//! A server node of either kind.
use vstd::prelude::*;

use crate::communication_server::{message_handled, CommunicationServer};
use crate::content_server::{content_message_handled, ContentServer};
use crate::message::{ChatRequest, Message, Request};
use crate::server_step::ServerStep;
use crate::NodeId;

verus! {

/// Servers that can be built from nothing.
pub trait ServerTrait: Sized {
    fn new() -> Self;
}

/// A server of one of the two kinds.
pub enum ServerType {
    Communication(CommunicationServer),
    Content(ContentServer),
}

/// A server node.
pub struct Server {
    pub server_type: ServerType,
}

impl Server {
    /// Hands the message to the server of its kind.
    pub fn handle_message(&mut self, peer_id: NodeId, message: Message) -> (step: ServerStep)
        requires
            old(self).server_type matches ServerType::Communication(c) ==> (message matches Message::Request(
                Request::ChatRequest(ChatRequest::GetMessages(id)),
            ) ==> c.chats@.contains_key(id)),
        ensures
            match (old(self).server_type, final(self).server_type) {
                (ServerType::Communication(a), ServerType::Communication(b)) => message_handled(a, b, peer_id, message, step),
                (ServerType::Content(a), ServerType::Content(b)) => {
                    &&& b.base_path@ == a.base_path@
                    &&& content_message_handled(a.base_path@, peer_id, message, step)
                },
                _ => false,
            },
    {
        match &mut self.server_type {
            ServerType::Communication(server) => server.handle_message(peer_id, message),
            ServerType::Content(server) => server.handle_message(peer_id, message),
        }
    }

    /// A server of the given kind.
    pub fn new(server_type: ServerType) -> (s: Self)
        ensures
            s.server_type == server_type,
    {
        Server { server_type }
    }
}

} // verus!
