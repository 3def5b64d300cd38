use drone_network::message::{ChatMessage, ChatResponse, ChatResponseMessage, ContentResponse, Response, ServerType};

#[test]
fn server_type_reads() {
    assert_eq!(Response::ServerType(ServerType::Content).display(), "Server type is Content");
    assert_eq!(Response::ServerType(ServerType::Communication).display(), "Server type is Communication");
    assert_eq!(ServerType::Content.display(), "Content");
}

#[test]
fn simple_responses_read() {
    assert_eq!(Response::NotImplemented.display(), "Not implemented");
    assert_eq!(Response::Success.display(), "Request was successful");
    assert_eq!(Response::Error("boom".to_string()).display(), "Error: boom");
}

#[test]
fn chat_listing_reads() {
    let empty = ChatResponse::Chats(vec![]);
    assert_eq!(empty.display(), "No available chats.");
    let two = ChatResponse::Chats(vec![
        ChatResponseMessage { id: 3, name: "general".to_string() },
        ChatResponseMessage { id: 42, name: "rust".to_string() },
    ]);
    assert_eq!(two.display(), "Available chats: general (ID: 3), rust (ID: 42), ");
    assert_eq!(ChatResponse::Error("Not in chat".to_string()).display(), "Error: Not in chat");
}

#[test]
fn chat_messages_read() {
    let none = ChatResponse::Messages(vec![]);
    assert_eq!(none.display(), "No messages in this chat.");
    let msgs = ChatResponse::Messages(vec![
        ChatMessage { author: 7, message: "hi".to_string(), timestamp: "t1".to_string() },
        ChatMessage { author: 12, message: "yo".to_string(), timestamp: "t2".to_string() },
    ]);
    assert_eq!(msgs.display(), "Messages:\n[t1] 7: hi\n[t2] 12: yo\n");
}

#[test]
fn file_listing_reads() {
    assert_eq!(ContentResponse::Files(vec![]).display(), "No files available.");
    assert_eq!(ContentResponse::Files(vec!["a.txt".to_string()]).display(), "Available files: a.txt");
    assert_eq!(
        ContentResponse::Files(vec!["a".to_string(), "b".to_string(), "c".to_string()]).display(),
        "Available files: a, b, c"
    );
    assert_eq!(ContentResponse::File("data".to_string()).display(), "File content: data");
    assert_eq!(
        Response::ContentResponse(ContentResponse::File("x".to_string())).display(),
        "File content: x"
    );
}
