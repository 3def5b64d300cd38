//! The high-level messages exchanged between clients and servers, and their
//! human-readable rendering.
use vstd::prelude::*;

use crate::decimal::{decimal, push_decimal};
use crate::NodeId;

verus! {

/// A message is a request or a response.
#[derive(Debug)]
pub enum Message {
    Request(Request),
    Response(Response),
}

/// What a client can ask of a server.
#[derive(Debug)]
pub enum Request {
    ServerType,
    ChatRequest(ChatRequest),
    ContentRequest(ContentRequest),
}

/// What a server answers.
#[derive(Clone, Debug)]
pub enum Response {
    ServerType(ServerType),
    ChatResponse(ChatResponse),
    ContentResponse(ContentResponse),
    NotImplemented,
    Success,
    Error(String),
}

/// The two kinds of server.
#[derive(Clone, Copy, Debug, PartialEq, Eq, Structural)]
pub enum ServerType {
    Communication,
    Content,
}

/// A chat as listed to clients.
#[derive(Clone, Debug)]
pub struct ChatResponseMessage {
    pub id: u64,
    pub name: String,
}

/// One message posted in a chat.
#[derive(Clone, Debug)]
pub struct ChatMessage {
    pub author: NodeId,
    pub message: String,
    pub timestamp: String,
}

/// The details of a chat to create.
#[derive(Clone, Debug)]
pub struct CreateChatRequest {
    pub name: String,
    pub public: bool,
    pub password: Option<String>,
}

/// Requests handled by a communication server.
#[derive(Clone, Debug)]
pub enum ChatRequest {
    /// Chat id and optional password.
    Join(u64, Option<String>),
    /// Chat id.
    Leave(u64),
    /// Chat id and message text.
    SendMessage(u64, String),
    Create(CreateChatRequest),
    /// Chat id.
    Delete(u64),
    GetChats,
    /// Chat id.
    GetMessages(u64),
}

/// Answers of a communication server.
#[derive(Clone, Debug)]
pub enum ChatResponse {
    Chats(Vec<ChatResponseMessage>),
    Messages(Vec<ChatMessage>),
    Error(String),
}

/// Requests handled by a content server.
#[derive(Clone, Debug)]
pub enum ContentRequest {
    ListPublicFiles,
    GetPublicFile(String),
    WritePublicFile(String, String),
    ListPrivateFiles,
    GetPrivateFile(String),
    WritePrivateFile(String, String),
}

/// Answers of a content server.
#[derive(Clone, Debug)]
pub enum ContentResponse {
    /// File names.
    Files(Vec<String>),
    /// File content.
    File(String),
}

/// How a server type reads.
pub open spec fn server_type_text(t: ServerType) -> Seq<char> {
    match t {
        ServerType::Communication => "Communication"@,
        ServerType::Content => "Content"@,
    }
}

/// The first `n` chats, each as "name (ID: id), ".
pub open spec fn chats_listing(chats: Seq<ChatResponseMessage>, n: int) -> Seq<char>
    decreases n,
{
    if n <= 0 {
        Seq::empty()
    } else {
        chats_listing(chats, n - 1) + chats[n - 1].name@ + " (ID: "@ + decimal(chats[n - 1].id as nat) + ")"@ + ", "@
    }
}

/// The first `n` chat messages, each as "[timestamp] author: message" and a
/// line break.
pub open spec fn messages_listing(messages: Seq<ChatMessage>, n: int) -> Seq<char>
    decreases n,
{
    if n <= 0 {
        Seq::empty()
    } else {
        messages_listing(messages, n - 1) + "["@ + messages[n - 1].timestamp@ + "] "@ + decimal(messages[n - 1].author as nat) + ": "@
            + messages[n - 1].message@ + "\n"@
    }
}

/// The first `n` file names, separated by ", ".
pub open spec fn files_listing(files: Seq<String>, n: int) -> Seq<char>
    decreases n,
{
    if n <= 0 {
        Seq::empty()
    } else if n == 1 {
        files[0]@
    } else {
        files_listing(files, n - 1) + ", "@ + files[n - 1]@
    }
}

/// How a chat response reads.
pub open spec fn chat_response_text(r: ChatResponse) -> Seq<char> {
    match r {
        ChatResponse::Chats(chats) => if chats@.len() == 0 {
            "No available chats."@
        } else {
            "Available chats: "@ + chats_listing(chats@, chats@.len() as int)
        },
        ChatResponse::Messages(messages) => if messages@.len() == 0 {
            "No messages in this chat."@
        } else {
            "Messages:\n"@ + messages_listing(messages@, messages@.len() as int)
        },
        ChatResponse::Error(err) => "Error: "@ + err@,
    }
}

/// How a content response reads.
pub open spec fn content_response_text(r: ContentResponse) -> Seq<char> {
    match r {
        ContentResponse::Files(files) => if files@.len() == 0 {
            "No files available."@
        } else {
            "Available files: "@ + files_listing(files@, files@.len() as int)
        },
        ContentResponse::File(content) => "File content: "@ + content@,
    }
}

/// How a response reads.
pub open spec fn response_text(r: Response) -> Seq<char> {
    match r {
        Response::ServerType(t) => "Server type is "@ + server_type_text(t),
        Response::ChatResponse(c) => chat_response_text(c),
        Response::ContentResponse(c) => content_response_text(c),
        Response::NotImplemented => "Not implemented"@,
        Response::Success => "Request was successful"@,
        Response::Error(err) => "Error: "@ + err@,
    }
}

impl ServerType {
    /// The name of the server type.
    pub fn display(&self) -> (s: String)
        ensures
            s@ == server_type_text(*self),
    {
        match self {
            ServerType::Communication => String::from_str("Communication"),
            ServerType::Content => String::from_str("Content"),
        }
    }
}

impl ChatResponse {
    /// A readable rendering of the answer.
    pub fn display(&self) -> (s: String)
        ensures
            s@ == chat_response_text(*self),
    {
        match self {
            ChatResponse::Chats(chats) => {
                if chats.len() == 0 {
                    String::from_str("No available chats.")
                } else {
                    let mut s = String::from_str("Available chats: ");
                    let ghost prefix = s@;
                    let mut i: usize = 0;
                    while i < chats.len()
                        invariant
                            i <= chats@.len(),
                            s@ == prefix + chats_listing(chats@, i as int),
                        decreases chats@.len() - i,
                    {
                        s.append(chats[i].name.as_str());
                        s.append(" (ID: ");
                        push_decimal(&mut s, chats[i].id);
                        s.append(")");
                        s.append(", ");
                        i = i + 1;
                        assert(s@ =~= prefix + chats_listing(chats@, i as int));
                    }
                    s
                }
            },
            ChatResponse::Messages(messages) => {
                if messages.len() == 0 {
                    String::from_str("No messages in this chat.")
                } else {
                    let mut s = String::from_str("Messages:\n");
                    let ghost prefix = s@;
                    let mut i: usize = 0;
                    while i < messages.len()
                        invariant
                            i <= messages@.len(),
                            s@ == prefix + messages_listing(messages@, i as int),
                        decreases messages@.len() - i,
                    {
                        s.append("[");
                        s.append(messages[i].timestamp.as_str());
                        s.append("] ");
                        push_decimal(&mut s, messages[i].author as u64);
                        s.append(": ");
                        s.append(messages[i].message.as_str());
                        s.append("\n");
                        i = i + 1;
                        assert(s@ =~= prefix + messages_listing(messages@, i as int));
                    }
                    s
                }
            },
            ChatResponse::Error(err) => {
                let mut s = String::from_str("Error: ");
                s.append(err.as_str());
                s
            },
        }
    }
}

impl ContentResponse {
    /// A readable rendering of the answer.
    pub fn display(&self) -> (s: String)
        ensures
            s@ == content_response_text(*self),
    {
        match self {
            ContentResponse::Files(files) => {
                if files.len() == 0 {
                    String::from_str("No files available.")
                } else {
                    let mut s = String::from_str("Available files: ");
                    let ghost prefix = s@;
                    s.append(files[0].as_str());
                    assert(s@ =~= prefix + files_listing(files@, 1));
                    let mut i: usize = 1;
                    while i < files.len()
                        invariant
                            1 <= i <= files@.len(),
                            s@ == prefix + files_listing(files@, i as int),
                        decreases files@.len() - i,
                    {
                        s.append(", ");
                        s.append(files[i].as_str());
                        i = i + 1;
                        assert(s@ =~= prefix + files_listing(files@, i as int));
                    }
                    s
                }
            },
            ContentResponse::File(content) => {
                let mut s = String::from_str("File content: ");
                s.append(content.as_str());
                s
            },
        }
    }
}

impl Response {
    /// A readable rendering of the response.
    pub fn display(&self) -> (s: String)
        ensures
            s@ == response_text(*self),
    {
        match self {
            Response::ServerType(t) => {
                let mut s = String::from_str("Server type is ");
                let name = t.display();
                s.append(name.as_str());
                s
            },
            Response::ChatResponse(c) => c.display(),
            Response::ContentResponse(c) => c.display(),
            Response::NotImplemented => String::from_str("Not implemented"),
            Response::Success => String::from_str("Request was successful"),
            Response::Error(err) => {
                let mut s = String::from_str("Error: ");
                s.append(err.as_str());
                s
            },
        }
    }
}

} // verus!
