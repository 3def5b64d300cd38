//! The content server: public files, and private files for each peer.
use vstd::prelude::*;

use crate::decimal::{decimal, decimal_string, lemma_decimal_digits, lemma_decimal_injective};
use crate::message::{ContentRequest, ContentResponse, Message, Request, Response, ServerType};
use crate::node::SimControllerMessage;
use crate::server_step::ServerStep;
use crate::text::{has_dot_dot, is_plain_file_name, path_with, plain_file_name};
use crate::wire::NodeType;
use crate::NodeId;

verus! {

/// A content server and the directory of its files (as path components).
#[derive(Debug)]
pub struct ContentServer {
    pub base_path: Vec<String>,
}

/// `r` is an error response with text `text`.
pub open spec fn error_response(r: Response, text: Seq<char>) -> bool {
    r matches Response::Error(e) && e@ == text
}

/// The directory of the public files under `base`.
pub open spec fn public_dir(base: Seq<String>) -> Seq<Seq<char>> {
    base.map_values(|c: String| c@).push("public"@)
}

/// The directory of the private files of `peer` under `base`.
pub open spec fn private_dir(base: Seq<String>, peer: NodeId) -> Seq<Seq<char>> {
    base.map_values(|c: String| c@).push(decimal(peer as nat))
}

/// The texts of the components of a path.
pub open spec fn path_view(p: Seq<String>) -> Seq<Seq<char>> {
    p.map_values(|c: String| c@)
}

/// The step for reading file `name` of directory `dir`: refused unless the
/// name is a plain file name.
pub open spec fn read_step(dir: Seq<Seq<char>>, name: String, step: ServerStep) -> bool {
    if !plain_file_name(name@) {
        step matches ServerStep::Reply(Some(r)) && error_response(r, "Invalid file name"@)
    } else {
        step matches ServerStep::ReadFile(p) && path_view(p@) == dir.push(name@)
    }
}

/// The step for writing `data` to file `name` of directory `dir`: refused
/// unless the name is a plain file name.
pub open spec fn write_step(dir: Seq<Seq<char>>, name: String, data: String, step: ServerStep) -> bool {
    if !plain_file_name(name@) {
        step matches ServerStep::Reply(Some(r)) && error_response(r, "Invalid file name"@)
    } else {
        step matches ServerStep::WriteFile(p, d) && path_view(p@) == dir.push(name@) && d == data
    }
}

/// The step that handling `message` from `peer_id` leads to, for a content
/// server whose files are under `base`.
pub open spec fn content_message_handled(base: Seq<String>, peer_id: NodeId, message: Message, step: ServerStep) -> bool {
    match message {
        Message::Response(_) => step matches ServerStep::Reply(None),
        Message::Request(Request::ServerType) => step matches ServerStep::Reply(Some(r))
            && r == Response::ServerType(ServerType::Content),
        Message::Request(Request::ChatRequest(_)) => step matches ServerStep::Reply(Some(r))
            && r == Response::NotImplemented,
        Message::Request(Request::ContentRequest(c)) => match c {
            ContentRequest::ListPublicFiles => step matches ServerStep::ListDir(p)
                && path_view(p@) == public_dir(base),
            ContentRequest::ListPrivateFiles => step matches ServerStep::ListDir(p)
                && path_view(p@) == private_dir(base, peer_id),
            ContentRequest::GetPublicFile(name) => read_step(public_dir(base), name, step),
            ContentRequest::GetPrivateFile(name) => read_step(private_dir(base, peer_id), name, step),
            ContentRequest::WritePublicFile(name, data) => write_step(public_dir(base), name, data, step),
            ContentRequest::WritePrivateFile(name, data) => write_step(
                private_dir(base, peer_id), name, data, step),
        },
    }
}

fn error(text: &str) -> (r: Response)
    ensures
        error_response(r, text@),
{
    Response::Error(String::from_str(text))
}

impl ContentServer {
    /// A server of node `node_id` keeping its files under
    /// `base_path`/`node_id`/content.
    pub fn new(node_id: NodeId, base_path: String) -> (s: Self)
        ensures
            path_view(s.base_path@) == seq![base_path@, decimal(node_id as nat), "content"@],
    {
        let mut path: Vec<String> = Vec::new();
        path.push(base_path);
        path.push(decimal_string(node_id as u64));
        path.push(String::from_str("content"));
        assert(path_view(path@) =~= seq![base_path@, decimal(node_id as nat), "content"@]);
        ContentServer { base_path: path }
    }

    /// The answer to a server type request.
    pub fn handle_server_type_request(&self) -> (r: Response)
        ensures
            r == Response::ServerType(ServerType::Content),
    {
        Response::ServerType(ServerType::Content)
    }

    /// The directory of the public files.
    pub fn get_public_dir(&self) -> (p: Vec<String>)
        ensures
            path_view(p@) == public_dir(self.base_path@),
    {
        let p = path_with(&self.base_path, String::from_str("public"));
        assert(path_view(p@) =~= public_dir(self.base_path@));
        p
    }

    /// The directory of the private files of `peer_id`.
    pub fn get_private_dir(&self, peer_id: NodeId) -> (p: Vec<String>)
        ensures
            path_view(p@) == private_dir(self.base_path@, peer_id),
    {
        let p = path_with(&self.base_path, decimal_string(peer_id as u64));
        assert(path_view(p@) =~= private_dir(self.base_path@, peer_id));
        p
    }

    /// Lists the public files.
    pub fn list_public_files(&self) -> (step: ServerStep)
        ensures
            step matches ServerStep::ListDir(p) && path_view(p@) == public_dir(self.base_path@),
    {
        ServerStep::ListDir(self.get_public_dir())
    }

    /// Lists the private files of `peer_id`.
    pub fn list_private_files(&self, peer_id: NodeId) -> (step: ServerStep)
        ensures
            step matches ServerStep::ListDir(p) && path_view(p@) == private_dir(self.base_path@, peer_id),
    {
        ServerStep::ListDir(self.get_private_dir(peer_id))
    }

    /// The answer once a directory was listed: the names of its files.
    pub fn files_listed(names: Vec<String>) -> (r: Response)
        ensures
            r matches Response::ContentResponse(ContentResponse::Files(v)) && v@ == names@,
    {
        Response::ContentResponse(ContentResponse::Files(names))
    }

    /// The answer when a directory could not be listed and was then
    /// created, or not: an empty listing, or an error.
    pub fn listing_failed(dir_created: bool) -> (r: Response)
        ensures
            dir_created ==> (r matches Response::ContentResponse(ContentResponse::Files(v)) && v@.len() == 0),
            !dir_created ==> error_response(r, "Failed to list files"@),
    {
        if dir_created {
            Response::ContentResponse(ContentResponse::Files(Vec::new()))
        } else {
            error("Failed to list files")
        }
    }

    /// Reads public file `file_name`, unless its name is not a plain file name.
    pub fn get_public_file(&self, file_name: String) -> (step: ServerStep)
        ensures
            read_step(public_dir(self.base_path@), file_name, step),
    {
        if !is_plain_file_name(file_name.as_str()) {
            return ServerStep::Reply(Some(error("Invalid file name")));
        }
        let p = path_with(&self.get_public_dir(), file_name);
        assert(path_view(p@) =~= public_dir(self.base_path@).push(file_name@));
        ServerStep::ReadFile(p)
    }

    /// Reads private file `file_name` of `peer_id`, unless its name is not a
    /// plain file name.
    pub fn get_private_file(&self, file_name: String, peer_id: NodeId) -> (step: ServerStep)
        ensures
            read_step(private_dir(self.base_path@, peer_id), file_name, step),
    {
        if !is_plain_file_name(file_name.as_str()) {
            return ServerStep::Reply(Some(error("Invalid file name")));
        }
        let p = path_with(&self.get_private_dir(peer_id), file_name);
        assert(path_view(p@) =~= private_dir(self.base_path@, peer_id).push(file_name@));
        ServerStep::ReadFile(p)
    }

    /// The answer once a file was read, or could not be.
    pub fn file_read(content: Option<String>) -> (r: Response)
        ensures
            content matches Some(c) ==> (r matches Response::ContentResponse(ContentResponse::File(d)) && d == c),
            content is None ==> error_response(r, "Failed to read file"@),
    {
        match content {
            Some(data) => Response::ContentResponse(ContentResponse::File(data)),
            None => error("Failed to read file"),
        }
    }

    /// Writes `data` to public file `file_name`, unless its name is not a plain
    /// file name.
    pub fn write_public_file(&self, file_name: String, data: String) -> (step: ServerStep)
        ensures
            write_step(public_dir(self.base_path@), file_name, data, step),
    {
        if !is_plain_file_name(file_name.as_str()) {
            return ServerStep::Reply(Some(error("Invalid file name")));
        }
        let p = path_with(&self.get_public_dir(), file_name);
        assert(path_view(p@) =~= public_dir(self.base_path@).push(file_name@));
        ServerStep::WriteFile(p, data)
    }

    /// Writes `data` to private file `file_name` of `peer_id`, unless its
    /// name is not a plain file name.
    pub fn write_private_file(&self, file_name: String, data: String, peer_id: NodeId) -> (step: ServerStep)
        ensures
            write_step(private_dir(self.base_path@, peer_id), file_name, data, step),
    {
        if !is_plain_file_name(file_name.as_str()) {
            return ServerStep::Reply(Some(error("Invalid file name")));
        }
        let p = path_with(&self.get_private_dir(peer_id), file_name);
        assert(path_view(p@) =~= private_dir(self.base_path@, peer_id).push(file_name@));
        ServerStep::WriteFile(p, data)
    }

    /// The answer once a write was attempted: success, whether or not the
    /// file could be written.
    pub fn file_written() -> (r: Response)
        ensures
            r == Response::Success,
    {
        Response::Success
    }

    /// Handles a message from `peer_id`: requests about files lead to the
    /// file operation to perform, a server type request is answered, chat
    /// requests are not implemented here, and responses get no answer.
    pub fn handle_message(&mut self, peer_id: NodeId, message: Message) -> (step: ServerStep)
        ensures
            final(self).base_path@ == old(self).base_path@,
            content_message_handled(old(self).base_path@, peer_id, message, step),
    {
        match message {
            Message::Request(request) => match request {
                Request::ServerType => ServerStep::Reply(Some(self.handle_server_type_request())),
                Request::ContentRequest(content_request) => match content_request {
                    ContentRequest::ListPublicFiles => self.list_public_files(),
                    ContentRequest::ListPrivateFiles => self.list_private_files(peer_id),
                    ContentRequest::GetPublicFile(file_name) => self.get_public_file(file_name),
                    ContentRequest::GetPrivateFile(file_name) => self.get_private_file(file_name, peer_id),
                    ContentRequest::WritePublicFile(file_name, data) => self.write_public_file(file_name, data),
                    ContentRequest::WritePrivateFile(file_name, data) => self.write_private_file(file_name, data, peer_id),
                },
                _ => ServerStep::Reply(Some(Response::NotImplemented)),
            },
            Message::Response(_) => ServerStep::Reply(None),
        }
    }

    /// A content server is a server node.
    pub fn get_node_type(&self) -> (t: NodeType)
        ensures
            t == NodeType::Server,
    {
        NodeType::Server
    }

    /// The name of this kind of node.
    pub fn get_node_type_str(&self) -> (s: &'static str)
        ensures
            s@ == "ContentServer"@,
    {
        "ContentServer"
    }

    /// A request of the controller: send the message to the peer, in a new
    /// session.
    pub fn handle_control_message(&mut self, message: SimControllerMessage) -> (r: Option<(NodeId, Option<u64>, Message)>)
        ensures
            message matches SimControllerMessage::SendMessageToPeer(p, m) && r == Some((p, None::<u64>, m)),
    {
        match message {
            SimControllerMessage::SendMessageToPeer(peer_id, message) => Some((peer_id, None, message)),
        }
    }
}

/// A file written under a valid name is read back from the same path.
pub proof fn lemma_read_finds_written(dir: Seq<Seq<char>>, name: String, data: String, write: ServerStep, read: ServerStep)
    requires
        plain_file_name(name@),
        write_step(dir, name, data, write),
        read_step(dir, name, read),
    ensures
        write matches ServerStep::WriteFile(wp, _) && read matches ServerStep::ReadFile(rp) && path_view(wp@) == path_view(rp@),
{
}

/// The private files of a peer are kept apart from those of every other
/// peer and from the public files.
pub proof fn lemma_private_dirs_apart(base: Seq<String>, p: NodeId, q: NodeId)
    requires
        p != q,
    ensures
        private_dir(base, p) != private_dir(base, q),
        private_dir(base, p) != public_dir(base),
{
    let n = base.len() as int;
    if private_dir(base, p) == private_dir(base, q) {
        assert(private_dir(base, p)[n] == private_dir(base, q)[n]);
        lemma_decimal_injective(p as nat, q as nat);
    }
    if private_dir(base, p) == public_dir(base) {
        assert(private_dir(base, p)[n] == public_dir(base)[n]);
        reveal_strlit("public");
        lemma_decimal_digits(p as nat);
        assert(decimal(p as nat)[0] == "public"@[0]);
    }
}

/// `path` names a file that a request of `peer_id` may reach on a server
/// whose files are under `base`: one plain entry of the public directory or
/// of the peer's own private directory.
pub open spec fn reachable_by(base: Seq<String>, peer_id: NodeId, path: Seq<Seq<char>>) -> bool {
    &&& path.len() > 0
    &&& plain_file_name(path.last())
    &&& (path.drop_last() == public_dir(base) || path.drop_last() == private_dir(base, peer_id))
}

/// Access control: whatever a peer asks, the only file the content server
/// reads or writes for it is one plain entry of the public directory or of
/// that peer's own private directory, and never one in the private
/// directory of another peer `q`.
pub proof fn lemma_access_stays_in_allowed_dirs(
    base: Seq<String>,
    peer_id: NodeId,
    message: Message,
    step: ServerStep,
    q: NodeId,
)
    requires
        content_message_handled(base, peer_id, message, step),
        q != peer_id,
    ensures
        step matches ServerStep::ReadFile(p) ==> reachable_by(base, peer_id, path_view(p@))
            && path_view(p@).drop_last() != private_dir(base, q),
        step matches ServerStep::WriteFile(p, _) ==> reachable_by(base, peer_id, path_view(p@))
            && path_view(p@).drop_last() != private_dir(base, q),
{
    lemma_private_dirs_apart(base, peer_id, q);
    lemma_private_dirs_apart(base, q, peer_id);
    match step {
        ServerStep::ReadFile(p) => {
            if let Message::Request(Request::ContentRequest(c)) = message {
                match c {
                    ContentRequest::GetPublicFile(name) => {
                        assert(public_dir(base).push(name@).drop_last() =~= public_dir(base));
                    },
                    ContentRequest::GetPrivateFile(name) => {
                        assert(private_dir(base, peer_id).push(name@).drop_last() =~= private_dir(base, peer_id));
                    },
                    _ => {},
                }
            }
        },
        ServerStep::WriteFile(p, _) => {
            if let Message::Request(Request::ContentRequest(c)) = message {
                match c {
                    ContentRequest::WritePublicFile(name, _) => {
                        assert(public_dir(base).push(name@).drop_last() =~= public_dir(base));
                    },
                    ContentRequest::WritePrivateFile(name, _) => {
                        assert(private_dir(base, peer_id).push(name@).drop_last() =~= private_dir(base, peer_id));
                    },
                    _ => {},
                }
            }
        },
        _ => {},
    }
}

/// Every name that is not empty, is not ".", holds no two dots in a row and
/// no '/' or '\\' is served: reading it reads, and writing it writes, that
/// entry of the directory, whatever other characters (spaces among them)
/// it holds.
pub proof fn lemma_ordinary_names_are_served(dir: Seq<Seq<char>>, name: String, data: String, step: ServerStep)
    requires
        name@.len() > 0,
        name@ != seq!['.'],
        forall|i: int| 0 <= i < name@.len() - 1 ==> !(#[trigger] name@[i] == '.' && name@[i + 1] == '.'),
        forall|i: int| 0 <= i < name@.len() ==> name@[i] != '/' && name@[i] != '\\',
    ensures
        read_step(dir, name, step) ==> (step matches ServerStep::ReadFile(p) && path_view(p@) == dir.push(name@)),
        write_step(dir, name, data, step) ==> (step matches ServerStep::WriteFile(p, d) && path_view(p@) == dir.push(name@)
            && d == data),
{
    if name@.len() == 1 && name@[0] == '.' {
        assert(name@ =~= seq!['.']);
    }
    assert(!has_dot_dot(name@));
    assert(plain_file_name(name@));
}

} // verus!
