//! The chat server: chats with their members and messages.
use vstd::prelude::*;
use vstd::std_specs::hash::*;
use vstd::std_specs::iter::IteratorSpec;
use std::collections::HashMap;

use crate::clock::{now_rfc3339, utc_rfc3339_shape};
use crate::decimal::{decimal, decimal_string};
use crate::message::{
    ChatMessage, ChatRequest, ChatResponse, ChatResponseMessage, CreateChatRequest, Message, Request, Response,
    ServerType,
};
use crate::node::SimControllerMessage;
use crate::random::random_u64;
use crate::server_step::ServerStep;
use crate::wire::NodeType;
use crate::NodeId;

verus! {

broadcast use {vstd::std_specs::hash::group_hash_axioms, vstd::seq_lib::group_seq_properties};

/// A chat room.
pub struct Chat {
    pub name: String,
    pub public: bool,
    pub password: Option<String>,
    pub registered_peers: Vec<NodeId>,
    pub messages: Vec<ChatMessage>,
}

/// A communication server: its chats, by id, and the directory where they
/// are kept (as path components).
pub struct CommunicationServer {
    pub chats: HashMap<u64, Chat>,
    pub base_path: Vec<String>,
}

/// `r` is a chat error response with text `text`.
pub open spec fn chat_error(r: Response, text: Seq<char>) -> bool {
    r matches Response::ChatResponse(ChatResponse::Error(e)) && e@ == text
}

/// Two optional passwords are the same: both absent, or equal texts.
pub open spec fn passwords_match(a: Option<String>, b: Option<String>) -> bool {
    match (a, b) {
        (None, None) => true,
        (Some(x), Some(y)) => x@ == y@,
        _ => false,
    }
}

/// `s` without the first occurrence of `x`.
pub open spec fn remove_first(s: Seq<NodeId>, x: NodeId) -> Seq<NodeId>
    decreases s.len(),
{
    if s.len() == 0 {
        s
    } else if s[0] == x {
        s.drop_first()
    } else {
        seq![s[0]] + remove_first(s.drop_first(), x)
    }
}

proof fn lemma_remove_first(s: Seq<NodeId>, x: NodeId, p: int)
    requires
        0 <= p < s.len(),
        s[p] == x,
        forall|q: int| 0 <= q < p ==> s[q] != x,
    ensures
        remove_first(s, x) == s.remove(p),
    decreases p,
{
    if p == 0 {
        assert(s.drop_first() =~= s.remove(0));
    } else {
        lemma_remove_first(s.drop_first(), x, p - 1);
        assert(seq![s[0]] + s.drop_first().remove(p - 1) =~= s.remove(p));
    }
}

/// `new` equals `old` on every chat but `id`, which both hold.
pub open spec fn others_unchanged(old: Map<u64, Chat>, new: Map<u64, Chat>, id: u64) -> bool {
    &&& new.dom() == old.dom()
    &&& forall|k: u64| #[trigger] old.contains_key(k) && k != id ==> new[k] == old[k]
}

/// `a` and `b` differ at most in their members and messages.
pub open spec fn same_settings(a: Chat, b: Chat) -> bool {
    &&& a.name == b.name
    &&& a.public == b.public
    &&& a.password == b.password
}

/// The outcome of posting `message` by `author` in chat `chat_id`, where
/// `stamp` holds of the timestamp of the new message.
pub open spec fn message_posted(old: Map<u64, Chat>, new: Map<u64, Chat>, chat_id: u64, author: NodeId, message: String, r: Response, stamp: spec_fn(String) -> bool) -> bool {
    if !old.contains_key(chat_id) {
        chat_error(r, "Chat does not exist"@) && new == old
    } else if !old[chat_id].registered_peers@.contains(author) {
        chat_error(r, "Not in chat"@) && new == old
    } else {
        let before = old[chat_id];
        let after = new[chat_id];
        &&& r == Response::Success
        &&& others_unchanged(old, new, chat_id)
        &&& same_settings(before, after)
        &&& after.registered_peers@ == before.registered_peers@
        &&& after.messages@.len() == before.messages@.len() + 1
        &&& after.messages@.drop_last() == before.messages@
        &&& after.messages@.last().author == author
        &&& after.messages@.last().message == message
        &&& stamp(after.messages@.last().timestamp)
    }
}

/// The outcome of creating chat `id` for `peer_id` from `req`.
pub open spec fn chat_created_as(old: Map<u64, Chat>, new: Map<u64, Chat>, peer_id: NodeId, req: CreateChatRequest, id: u64) -> bool {
    &&& new.dom() == old.dom().insert(id)
    &&& forall|k: u64| #[trigger] old.contains_key(k) && k != id ==> new[k] == old[k]
    &&& new[id].name == req.name
    &&& new[id].public == req.public
    &&& new[id].password == req.password
    &&& new[id].registered_peers@ == seq![peer_id]
    &&& new[id].messages@.len() == 0
}

/// The outcome of `peer_id` joining chat `chat_id` with `password`.
pub open spec fn chat_joined(old: Map<u64, Chat>, new: Map<u64, Chat>, peer_id: NodeId, chat_id: u64, password: Option<String>, r: Response) -> bool {
    if !old.contains_key(chat_id) {
        chat_error(r, "Chat does not exist"@) && new == old
    } else {
        let before = old[chat_id];
        let after = new[chat_id];
        if !passwords_match(before.password, password) {
            chat_error(r, "Wrong password"@) && new == old
        } else if before.registered_peers@.contains(peer_id) {
            chat_error(r, "Already in chat"@) && new == old
        } else {
            &&& r == Response::Success
            &&& others_unchanged(old, new, chat_id)
            &&& same_settings(before, after)
            &&& after.registered_peers@ == before.registered_peers@.push(peer_id)
            &&& after.messages == before.messages
        }
    }
}

/// The outcome of `peer_id` leaving chat `chat_id`.
pub open spec fn chat_left(old: Map<u64, Chat>, new: Map<u64, Chat>, peer_id: NodeId, chat_id: u64, r: Response) -> bool {
    if !old.contains_key(chat_id) {
        chat_error(r, "Chat does not exist"@) && new == old
    } else {
        let before = old[chat_id];
        let after = new[chat_id];
        if !before.registered_peers@.contains(peer_id) {
            chat_error(r, "Not in chat"@) && new == old
        } else {
            &&& r == Response::Success
            &&& others_unchanged(old, new, chat_id)
            &&& same_settings(before, after)
            &&& after.registered_peers@ == remove_first(before.registered_peers@, peer_id)
            &&& after.messages == before.messages
        }
    }
}

/// `p` is the path `base` followed by the decimal id of the chat.
pub open spec fn is_chat_file(p: Seq<String>, base: Seq<String>, chat_id: u64) -> bool {
    &&& p.len() == base.len() + 1
    &&& forall|i: int| 0 <= i < base.len() ==> (#[trigger] p[i])@ == base[i]@
    &&& p[base.len() as int]@ == decimal(chat_id as nat)
}

/// The outcome of deleting chat `chat_id`.
pub open spec fn chat_deleted(old: Map<u64, Chat>, new: Map<u64, Chat>, base: Seq<String>, chat_id: u64, step: ServerStep) -> bool {
    &&& new == old.remove(chat_id)
    &&& !old.contains_key(chat_id) ==> (step matches ServerStep::Reply(Some(r)) && chat_error(r, "Chat does not exist"@))
    &&& old.contains_key(chat_id) ==> (step matches ServerStep::RemoveFile(p) && is_chat_file(p@, base, chat_id))
}

/// `r` lists the public chats, each with its id and name, each once.
pub open spec fn chats_listed(chats: Map<u64, Chat>, r: Response) -> bool {
    r matches Response::ChatResponse(ChatResponse::Chats(v)) && {
        &&& forall|i: int| 0 <= i < v@.len() ==> {
            &&& chats.contains_key((#[trigger] v@[i]).id)
            &&& chats[v@[i].id].public
            &&& v@[i].name@ == chats[v@[i].id].name@
        }
        &&& forall|id: u64| #[trigger] chats.contains_key(id) && chats[id].public
            ==> exists|i: int| 0 <= i < v@.len() && (#[trigger] v@[i]).id == id
        &&& forall|i: int, j: int| 0 <= i < j < v@.len() ==> (#[trigger] v@[i]).id != (#[trigger] v@[j]).id
    }
}

/// `r` lists the messages of chat `chat_id`, oldest first.
pub open spec fn messages_listed(chats: Map<u64, Chat>, chat_id: u64, r: Response) -> bool {
    r matches Response::ChatResponse(ChatResponse::Messages(v)) && {
        let ms = chats[chat_id].messages@;
        &&& v@.len() == ms.len()
        &&& forall|i: int| 0 <= i < ms.len() ==> {
            &&& (#[trigger] v@[i]).author == ms[i].author
            &&& v@[i].message@ == ms[i].message@
            &&& v@[i].timestamp@ == ms[i].timestamp@
        }
    }
}

/// What handling `message` from `peer_id` does to a communication server
/// and which step it leads to.
pub open spec fn message_handled(old: CommunicationServer, new: CommunicationServer, peer_id: NodeId, message: Message, step: ServerStep) -> bool {
    &&& new.base_path@ == old.base_path@
    &&& match message {
        Message::Response(_) => step matches ServerStep::Reply(None) && new.chats@ == old.chats@,
        Message::Request(Request::ServerType) => (step matches ServerStep::Reply(Some(r))
            && r == Response::ServerType(ServerType::Communication)) && new.chats@ == old.chats@,
        Message::Request(Request::ContentRequest(_)) => (step matches ServerStep::Reply(Some(r))
            && r == Response::NotImplemented) && new.chats@ == old.chats@,
        Message::Request(Request::ChatRequest(c)) => match c {
            ChatRequest::Create(req) => (step matches ServerStep::Reply(Some(r)) && r == Response::Success)
                && exists|id: u64| chat_created_as(old.chats@, new.chats@, peer_id, req, id),
            ChatRequest::Join(id, password) => step matches ServerStep::Reply(Some(r))
                && chat_joined(old.chats@, new.chats@, peer_id, id, password, r),
            ChatRequest::Leave(id) => step matches ServerStep::Reply(Some(r))
                && chat_left(old.chats@, new.chats@, peer_id, id, r),
            ChatRequest::Delete(id) => chat_deleted(old.chats@, new.chats@, old.base_path@, id, step),
            ChatRequest::SendMessage(id, text) => step matches ServerStep::Reply(Some(r))
                && message_posted(old.chats@, new.chats@, id, peer_id, text, r, |t: String| true),
            ChatRequest::GetChats => (step matches ServerStep::Reply(Some(r)) && chats_listed(old.chats@, r))
                && new.chats@ == old.chats@,
            ChatRequest::GetMessages(id) => (step matches ServerStep::Reply(Some(r)) && messages_listed(old.chats@, id, r))
                && new.chats@ == old.chats@,
        },
    }
}

/// The text of a chat message as kept by the server.
fn copy_message(m: &ChatMessage) -> (r: ChatMessage)
    ensures
        r.author == m.author,
        r.message@ == m.message@,
        r.timestamp@ == m.timestamp@,
{
    ChatMessage { author: m.author, message: m.message.clone(), timestamp: m.timestamp.clone() }
}

fn contains_peer(peers: &Vec<NodeId>, peer: NodeId) -> (r: bool)
    ensures
        r == peers@.contains(peer),
{
    let mut i: usize = 0;
    while i < peers.len()
        invariant
            i <= peers@.len(),
            forall|j: int| 0 <= j < i ==> peers@[j] != peer,
        decreases peers@.len() - i,
    {
        if peers[i] == peer {
            return true;
        }
        i = i + 1;
    }
    false
}

fn same_password(a: &Option<String>, b: &Option<String>) -> (r: bool)
    ensures
        r == passwords_match(*a, *b),
{
    match (a, b) {
        (None, None) => true,
        (Some(x), Some(y)) => x.eq(y),
        _ => false,
    }
}

fn chat_error_response(text: &str) -> (r: Response)
    ensures
        chat_error(r, text@),
{
    Response::ChatResponse(ChatResponse::Error(String::from_str(text)))
}

impl CommunicationServer {
    /// A server of node `node_id` with no chat, keeping its chats under
    /// `base_path`/`node_id`/communication.
    pub fn new(node_id: NodeId, base_path: String) -> (s: Self)
        ensures
            s.chats@ == Map::<u64, Chat>::empty(),
            s.base_path@.len() == 3,
            s.base_path@[0]@ == base_path@,
            s.base_path@[1]@ == decimal(node_id as nat),
            s.base_path@[2]@ == "communication"@,
    {
        let mut path: Vec<String> = Vec::new();
        path.push(base_path);
        path.push(decimal_string(node_id as u64));
        path.push(String::from_str("communication"));
        CommunicationServer { chats: HashMap::new(), base_path: path }
    }

    /// Puts back a chat kept from an earlier run.
    pub fn restore_chat(&mut self, chat_id: u64, chat: Chat)
        ensures
            final(self).chats@ == old(self).chats@.insert(chat_id, chat),
            final(self).base_path@ == old(self).base_path@,
    {
        self.chats.insert(chat_id, chat);
    }

    /// The path of the file that keeps chat `chat_id`.
    pub fn chat_file(&self, chat_id: u64) -> (p: Vec<String>)
        ensures
            is_chat_file(p@, self.base_path@, chat_id),
    {
        let mut p: Vec<String> = Vec::new();
        let mut i: usize = 0;
        while i < self.base_path.len()
            invariant
                i <= self.base_path@.len(),
                p@.len() == i,
                forall|j: int| 0 <= j < i ==> (#[trigger] p@[j])@ == self.base_path@[j]@,
            decreases self.base_path@.len() - i,
        {
            p.push(self.base_path[i].clone());
            i = i + 1;
        }
        p.push(decimal_string(chat_id));
        p
    }

    /// The answer to a server type request.
    pub fn handle_server_type_request(&self) -> (r: Response)
        ensures
            r == Response::ServerType(ServerType::Communication),
    {
        Response::ServerType(ServerType::Communication)
    }

    /// The public chats, each with its id and name, each once, in no
    /// particular order.
    pub fn get_chats(&self) -> (r: Response)
        ensures
            chats_listed(self.chats@, r),
    {
        let mut v: Vec<ChatResponseMessage> = Vec::new();
        let ghost items = spec_hash_map_iter(&self.chats).remaining();
        for (id, chat) in it: self.chats.iter()
            invariant
                it.seq() == items,
                items.no_duplicates(),
                v@.len() <= it.index(),
                forall|i: int| 0 <= i < v@.len() ==> {
                    &&& self.chats@.contains_key((#[trigger] v@[i]).id)
                    &&& self.chats@[v@[i].id].public
                    &&& v@[i].name@ == self.chats@[v@[i].id].name@
                    &&& exists|j: int| 0 <= j < it.index() && *items[j].0 == v@[i].id
                },
                forall|j: int| 0 <= j < it.index() && (#[trigger] items[j]).1.public
                    ==> exists|i: int| 0 <= i < v@.len() && (#[trigger] v@[i]).id == *items[j].0,
                forall|i: int, j: int| 0 <= i < j < v@.len() ==> (#[trigger] v@[i]).id != (#[trigger] v@[j]).id,
        {
            let ghost idx = it.index();
            assert(items[idx] == (id, chat));
            if chat.public {
                let ghost before = v@;
                proof {
                    assert forall|i: int| 0 <= i < before.len() implies (#[trigger] before[i]).id != *id by {
                        let j = choose|j: int| 0 <= j < idx && *items[j].0 == before[i].id;
                        assert(self.chats@[*items[j].0] == *items[j].1);
                        assert(items[j] != items[idx]);
                    }
                }
                v.push(ChatResponseMessage { id: *id, name: chat.name.clone() });
                proof {
                    assert(v@[before.len() as int].id == *items[idx].0);
                    assert forall|j: int| 0 <= j < idx + 1 && (#[trigger] items[j]).1.public
                        implies exists|i: int| 0 <= i < v@.len() && (#[trigger] v@[i]).id == *items[j].0 by {
                        if j < idx {
                            let i = choose|i: int| 0 <= i < before.len() && (#[trigger] before[i]).id == *items[j].0;
                            assert(v@[i] == before[i]);
                        } else {
                            assert(v@[before.len() as int].id == *items[j].0);
                        }
                    }
                }
            }
        }
        proof {
            assert forall|id: u64| #[trigger] self.chats@.contains_key(id) && self.chats@[id].public
                implies exists|i: int| 0 <= i < v@.len() && (#[trigger] v@[i]).id == id by {
                assert(items.contains((&id, &self.chats@[id])));
                let j = choose|j: int| 0 <= j < items.len() && items[j] == (&id, &self.chats@[id]);
                assert(items[j].1.public);
            }
        }
        Response::ChatResponse(ChatResponse::Chats(v))
    }

    /// Posts `message` by `author` in chat `chat_id`, stamped with
    /// `timestamp`. Only members may post.
    pub fn add_message_at(&mut self, chat_id: u64, author: NodeId, message: String, timestamp: String) -> (r: Response)
        ensures
            final(self).base_path@ == old(self).base_path@,
            message_posted(old(self).chats@, final(self).chats@, chat_id, author, message, r, |t: String| t == timestamp),
    {
        match self.chats.remove(&chat_id) {
            Some(mut chat) => {
                if !contains_peer(&chat.registered_peers, author) {
                    self.chats.insert(chat_id, chat);
                    proof {
                        assert(self.chats@ =~= old(self).chats@);
                    }
                    chat_error_response("Not in chat")
                } else {
                    let ghost before_msgs = chat.messages@;
                    chat.messages.push(ChatMessage { author, message, timestamp });
                    assert(chat.messages@.drop_last() =~= before_msgs);
                    self.chats.insert(chat_id, chat);
                    Response::Success
                }
            },
            None => {
                proof {
                    assert(self.chats@ =~= old(self).chats@);
                }
                chat_error_response("Chat does not exist")
            },
        }
    }

    /// Posts `message` by `author` in chat `chat_id`, stamped with the
    /// current time as a UTC time in RFC 3339 form (see `add_message_at`).
    pub fn add_message_to_chat(&mut self, chat_id: u64, author: NodeId, message: String) -> (r: Response)
        ensures
            final(self).base_path@ == old(self).base_path@,
            message_posted(old(self).chats@, final(self).chats@, chat_id, author, message, r,
                |t: String| utc_rfc3339_shape(t@)),
    {
        let timestamp = now_rfc3339();
        let r = self.add_message_at(chat_id, author, message, timestamp);
        r
    }

    /// Creates chat `id` from `chat_request`, with `peer_id` as its only
    /// member and no message. A chat with the same id is replaced.
    pub fn create_chat_with_id(&mut self, peer_id: NodeId, chat_request: CreateChatRequest, id: u64) -> (r: Response)
        ensures
            r == Response::Success,
            final(self).base_path@ == old(self).base_path@,
            chat_created_as(old(self).chats@, final(self).chats@, peer_id, chat_request, id),
    {
        let mut registered_peers = Vec::new();
        registered_peers.push(peer_id);
        self.chats.insert(id, Chat {
            name: chat_request.name,
            public: chat_request.public,
            password: chat_request.password,
            registered_peers,
            messages: Vec::new(),
        });
        Response::Success
    }

    /// Creates a chat under a random id (see `create_chat_with_id`).
    pub fn create_chat(&mut self, peer_id: NodeId, chat_request: CreateChatRequest) -> (r: Response)
        ensures
            r == Response::Success,
            final(self).base_path@ == old(self).base_path@,
            exists|id: u64| chat_created_as(old(self).chats@, final(self).chats@, peer_id, chat_request, id),
    {
        let id = random_u64();
        let r = self.create_chat_with_id(peer_id, chat_request, id);
        assert(chat_created_as(old(self).chats@, self.chats@, peer_id, chat_request, id));
        r
    }

    /// Deletes chat `chat_id`: the chat is forgotten and its file must go.
    /// A missing chat is an error.
    pub fn delete_chat(&mut self, chat_id: u64) -> (step: ServerStep)
        ensures
            final(self).base_path@ == old(self).base_path@,
            chat_deleted(old(self).chats@, final(self).chats@, old(self).base_path@, chat_id, step),
    {
        if self.chats.remove(&chat_id).is_none() {
            proof {
                assert(self.chats@ =~= old(self).chats@.remove(chat_id));
            }
            return ServerStep::Reply(Some(chat_error_response("Chat does not exist")));
        }
        ServerStep::RemoveFile(self.chat_file(chat_id))
    }

    /// The answer once the file of a deleted chat was removed, or not.
    pub fn chat_file_removed(removed: bool) -> (r: Response)
        ensures
            removed ==> r == Response::Success,
            !removed ==> chat_error(r, "Failed to delete chat"@),
    {
        if removed {
            Response::Success
        } else {
            chat_error_response("Failed to delete chat")
        }
    }

    /// The messages of chat `chat_id`, oldest first.
    pub fn get_chat_messages(&self, chat_id: u64) -> (r: Response)
        requires
            self.chats@.contains_key(chat_id),
        ensures
            messages_listed(self.chats@, chat_id, r),
    {
        let chat = self.chats.get(&chat_id).unwrap();
        let mut messages: Vec<ChatMessage> = Vec::new();
        let mut i: usize = 0;
        while i < chat.messages.len()
            invariant
                i <= chat.messages@.len(),
                *chat == self.chats@[chat_id],
                messages@.len() == i,
                forall|j: int| 0 <= j < i ==> {
                    &&& (#[trigger] messages@[j]).author == chat.messages@[j].author
                    &&& messages@[j].message@ == chat.messages@[j].message@
                    &&& messages@[j].timestamp@ == chat.messages@[j].timestamp@
                },
            decreases chat.messages@.len() - i,
        {
            messages.push(copy_message(&chat.messages[i]));
            i = i + 1;
        }
        Response::ChatResponse(ChatResponse::Messages(messages))
    }

    /// `peer_id` joins chat `chat_id`, given the chat's password (or none,
    /// when the chat has none).
    pub fn join_chat(&mut self, peer_id: NodeId, chat_id: u64, password: Option<String>) -> (r: Response)
        ensures
            final(self).base_path@ == old(self).base_path@,
            chat_joined(old(self).chats@, final(self).chats@, peer_id, chat_id, password, r),
    {
        match self.chats.remove(&chat_id) {
            Some(mut chat) => {
                if same_password(&chat.password, &password) {
                    if !contains_peer(&chat.registered_peers, peer_id) {
                        chat.registered_peers.push(peer_id);
                        self.chats.insert(chat_id, chat);
                        Response::Success
                    } else {
                        self.chats.insert(chat_id, chat);
                        proof {
                            assert(self.chats@ =~= old(self).chats@);
                        }
                        chat_error_response("Already in chat")
                    }
                } else {
                    self.chats.insert(chat_id, chat);
                    proof {
                        assert(self.chats@ =~= old(self).chats@);
                    }
                    chat_error_response("Wrong password")
                }
            },
            None => {
                proof {
                    assert(self.chats@ =~= old(self).chats@);
                }
                chat_error_response("Chat does not exist")
            },
        }
    }

    /// `peer_id` leaves chat `chat_id`.
    pub fn leave_chat(&mut self, peer_id: NodeId, chat_id: u64) -> (r: Response)
        ensures
            final(self).base_path@ == old(self).base_path@,
            chat_left(old(self).chats@, final(self).chats@, peer_id, chat_id, r),
    {
        match self.chats.remove(&chat_id) {
            Some(mut chat) => {
                let ghost peers = chat.registered_peers@;
                let mut pos: usize = 0;
                let mut found = false;
                while !found && pos < chat.registered_peers.len()
                    invariant
                        pos <= peers.len(),
                        chat.registered_peers@ == peers,
                        forall|q: int| 0 <= q < pos ==> peers[q] != peer_id,
                        found ==> pos < peers.len() && peers[pos as int] == peer_id,
                    decreases peers.len() - pos + if found { 0int } else { 1 },
                {
                    if chat.registered_peers[pos] == peer_id {
                        found = true;
                    } else {
                        pos = pos + 1;
                    }
                }
                if found {
                    chat.registered_peers.remove(pos);
                    proof {
                        lemma_remove_first(peers, peer_id, pos as int);
                    }
                    self.chats.insert(chat_id, chat);
                    Response::Success
                } else {
                    self.chats.insert(chat_id, chat);
                    proof {
                        assert(self.chats@ =~= old(self).chats@);
                    }
                    chat_error_response("Not in chat")
                }
            },
            None => {
                proof {
                    assert(self.chats@ =~= old(self).chats@);
                }
                chat_error_response("Chat does not exist")
            },
        }
    }

    /// Handles a message from `peer_id`: requests about chats are served,
    /// a server type request is answered, content requests are not
    /// implemented here, and responses get no answer.
    pub fn handle_message(&mut self, peer_id: NodeId, message: Message) -> (step: ServerStep)
        requires
            message matches Message::Request(Request::ChatRequest(ChatRequest::GetMessages(id))) ==> old(self).chats@.contains_key(id),
        ensures
            message_handled(*old(self), *final(self), peer_id, message, step),
    {
        match message {
            Message::Request(request) => match request {
                Request::ServerType => ServerStep::Reply(Some(self.handle_server_type_request())),
                Request::ChatRequest(chat_request) => match chat_request {
                    ChatRequest::Create(create_chat_request) => ServerStep::Reply(Some(self.create_chat(peer_id, create_chat_request))),
                    ChatRequest::Join(chat_id, password) => ServerStep::Reply(Some(self.join_chat(peer_id, chat_id, password))),
                    ChatRequest::Leave(chat_id) => ServerStep::Reply(Some(self.leave_chat(peer_id, chat_id))),
                    ChatRequest::Delete(chat_id) => self.delete_chat(chat_id),
                    ChatRequest::SendMessage(chat_id, text) => ServerStep::Reply(Some(self.add_message_to_chat(chat_id, peer_id, text))),
                    ChatRequest::GetChats => ServerStep::Reply(Some(self.get_chats())),
                    ChatRequest::GetMessages(chat_id) => ServerStep::Reply(Some(self.get_chat_messages(chat_id))),
                },
                _ => ServerStep::Reply(Some(Response::NotImplemented)),
            },
            Message::Response(_) => ServerStep::Reply(None),
        }
    }

    /// A communication server is a server node.
    pub fn get_node_type(&self) -> (t: NodeType)
        ensures
            t == NodeType::Server,
    {
        NodeType::Server
    }

    /// The name of this kind of node.
    pub fn get_node_type_str(&self) -> (s: &'static str)
        ensures
            s@ == "CommunicationServer"@,
    {
        "CommunicationServer"
    }

    /// A request of the controller: send the message to the peer, in a new
    /// session.
    pub fn handle_control_message(&mut self, message: SimControllerMessage) -> (r: Option<(NodeId, Option<u64>, Message)>)
        ensures
            message matches SimControllerMessage::SendMessageToPeer(p, m) && r == Some((p, None::<u64>, m)),
    {
        match message {
            SimControllerMessage::SendMessageToPeer(peer_id, message) => Some((peer_id, None, message)),
        }
    }
}

/// Leaving a chat just joined gives the chat back its members as they were,
/// with its settings and messages untouched.
pub proof fn lemma_leave_undoes_join(
    old: Map<u64, Chat>,
    mid: Map<u64, Chat>,
    new: Map<u64, Chat>,
    peer_id: NodeId,
    chat_id: u64,
    password: Option<String>,
    joined: Response,
    left: Response,
)
    requires
        chat_joined(old, mid, peer_id, chat_id, password, joined),
        joined == Response::Success,
        chat_left(mid, new, peer_id, chat_id, left),
    ensures
        left == Response::Success,
        new.dom() == old.dom(),
        forall|k: u64| #[trigger] old.contains_key(k) && k != chat_id ==> new[k] == old[k],
        same_settings(new[chat_id], old[chat_id]),
        new[chat_id].registered_peers@ == old[chat_id].registered_peers@,
        new[chat_id].messages == old[chat_id].messages,
{
    let before = old[chat_id].registered_peers@;
    assert(mid[chat_id].registered_peers@ == before.push(peer_id));
    assert(before.push(peer_id)[before.len() as int] == peer_id);
    assert(!before.contains(peer_id));
    lemma_remove_first(before.push(peer_id), peer_id, before.len() as int);
    assert(before.push(peer_id).remove(before.len() as int) =~= before);
}

/// Joining an existing chat succeeds only with the chat's own password:
/// both absent, or the same text. A chat with a password refuses any other
/// text with "Wrong password" and stays as it was.
pub proof fn lemma_join_needs_the_password(
    old: Map<u64, Chat>,
    new: Map<u64, Chat>,
    peer_id: NodeId,
    chat_id: u64,
    password: Option<String>,
    r: Response,
)
    requires
        old.contains_key(chat_id),
        chat_joined(old, new, peer_id, chat_id, password, r),
    ensures
        r == Response::Success ==> (old[chat_id].password is None && password is None)
            || (old[chat_id].password matches Some(x) && password matches Some(y) && x@ == y@),
        (old[chat_id].password matches Some(x) && password matches Some(y) && x@ != y@)
            ==> chat_error(r, "Wrong password"@) && new == old,
        (old[chat_id].password is Some && password is None) ==> chat_error(r, "Wrong password"@) && new == old,
{
}

} // verus!
