use drone_network::communication_server::CommunicationServer;
use drone_network::message::{ChatRequest, ChatResponse, CreateChatRequest, Message, Request, Response, ServerType};
use drone_network::server_step::ServerStep;

fn create(s: &mut CommunicationServer, peer: u8, name: &str, public: bool, password: Option<&str>, id: u64) {
    let r = s.create_chat_with_id(
        peer,
        CreateChatRequest { name: name.to_string(), public, password: password.map(|p| p.to_string()) },
        id,
    );
    assert!(matches!(r, Response::Success));
}

fn error_text(r: &Response) -> String {
    match r {
        Response::ChatResponse(ChatResponse::Error(e)) => e.clone(),
        _ => panic!("not a chat error"),
    }
}

#[test]
fn new_server_paths() {
    let s = CommunicationServer::new(12, "/tmp/rust".to_string());
    assert!(s.chats.is_empty());
    assert_eq!(s.base_path, vec!["/tmp/rust".to_string(), "12".to_string(), "communication".to_string()]);
    assert_eq!(
        s.chat_file(99),
        vec!["/tmp/rust".to_string(), "12".to_string(), "communication".to_string(), "99".to_string()]
    );
    assert_eq!(s.get_node_type_str(), "CommunicationServer");
}

#[test]
fn join_post_and_read_messages() {
    let mut s = CommunicationServer::new(1, "base".to_string());
    create(&mut s, 5, "room", true, None, 10);
    assert_eq!(s.chats.get(&10).unwrap().registered_peers, vec![5]);
    let r = s.join_chat(6, 10, None);
    assert!(matches!(r, Response::Success));
    let r = s.add_message_at(10, 6, "hello".to_string(), "2024-01-01T00:00:00+00:00".to_string());
    assert!(matches!(r, Response::Success));
    match s.get_chat_messages(10) {
        Response::ChatResponse(ChatResponse::Messages(v)) => {
            assert_eq!(v.len(), 1);
            assert_eq!(v[0].author, 6);
            assert_eq!(v[0].message, "hello");
            assert_eq!(v[0].timestamp, "2024-01-01T00:00:00+00:00");
        }
        _ => panic!("expected messages"),
    }
}

#[test]
fn chat_errors() {
    let mut s = CommunicationServer::new(1, "base".to_string());
    create(&mut s, 5, "secret", false, Some("pw"), 3);
    assert_eq!(error_text(&s.join_chat(6, 4, None)), "Chat does not exist");
    assert_eq!(error_text(&s.join_chat(6, 3, None)), "Wrong password");
    assert_eq!(error_text(&s.join_chat(5, 3, Some("pw".to_string()))), "Already in chat");
    assert_eq!(error_text(&s.leave_chat(6, 3)), "Not in chat");
    assert_eq!(error_text(&s.leave_chat(6, 8)), "Chat does not exist");
    assert_eq!(error_text(&s.add_message_at(3, 9, "x".to_string(), "t".to_string())), "Not in chat");
    assert_eq!(error_text(&s.add_message_at(4, 5, "x".to_string(), "t".to_string())), "Chat does not exist");
    assert!(matches!(s.join_chat(6, 3, Some("pw".to_string())), Response::Success));
}

#[test]
fn leave_undoes_join() {
    let mut s = CommunicationServer::new(1, "base".to_string());
    create(&mut s, 5, "room", true, None, 10);
    assert!(matches!(s.join_chat(8, 10, None), Response::Success));
    assert_eq!(s.chats.get(&10).unwrap().registered_peers, vec![5, 8]);
    assert!(matches!(s.leave_chat(8, 10), Response::Success));
    assert_eq!(s.chats.get(&10).unwrap().registered_peers, vec![5]);
}

#[test]
fn only_public_chats_are_listed() {
    let mut s = CommunicationServer::new(1, "base".to_string());
    create(&mut s, 5, "open", true, None, 1);
    create(&mut s, 5, "hidden", false, None, 2);
    match s.get_chats() {
        Response::ChatResponse(ChatResponse::Chats(v)) => {
            assert_eq!(v.len(), 1);
            assert_eq!(v[0].id, 1);
            assert_eq!(v[0].name, "open");
        }
        _ => panic!("expected chats"),
    }
}

#[test]
fn delete_chat_removes_its_file() {
    let mut s = CommunicationServer::new(2, "b".to_string());
    create(&mut s, 5, "room", true, None, 77);
    match s.delete_chat(77) {
        ServerStep::RemoveFile(p) => {
            assert_eq!(p, vec!["b".to_string(), "2".to_string(), "communication".to_string(), "77".to_string()])
        }
        _ => panic!("expected a file removal"),
    }
    assert!(s.chats.is_empty());
    match s.delete_chat(77) {
        ServerStep::Reply(Some(r)) => assert_eq!(error_text(&r), "Chat does not exist"),
        _ => panic!("expected an error"),
    }
    assert!(matches!(CommunicationServer::chat_file_removed(true), Response::Success));
    assert_eq!(error_text(&CommunicationServer::chat_file_removed(false)), "Failed to delete chat");
}

#[test]
fn create_chat_under_random_id() {
    let mut s = CommunicationServer::new(1, "base".to_string());
    let r = s.create_chat(4, CreateChatRequest { name: "n".to_string(), public: true, password: None });
    assert!(matches!(r, Response::Success));
    assert_eq!(s.chats.len(), 1);
    let (_, chat) = s.chats.iter().next().unwrap();
    assert_eq!(chat.name, "n");
    assert_eq!(chat.registered_peers, vec![4]);
}

#[test]
fn posting_stamps_the_current_time() {
    let mut s = CommunicationServer::new(1, "base".to_string());
    create(&mut s, 5, "room", true, None, 10);
    assert!(matches!(s.add_message_to_chat(10, 5, "m".to_string()), Response::Success));
    let stamp = &s.chats.get(&10).unwrap().messages[0].timestamp;
    assert!(stamp.len() >= 20);
    assert!(stamp.contains('T'));
    assert!(stamp.ends_with("+00:00"));
}

#[test]
fn handle_message_dispatch() {
    let mut s = CommunicationServer::new(1, "base".to_string());
    match s.handle_message(3, Message::Request(Request::ServerType)) {
        ServerStep::Reply(Some(Response::ServerType(ServerType::Communication))) => {}
        _ => panic!("expected the server type"),
    }
    match s.handle_message(3, Message::Response(Response::Success)) {
        ServerStep::Reply(None) => {}
        _ => panic!("expected no reply"),
    }
    match s.handle_message(3, Message::Request(Request::ChatRequest(ChatRequest::GetChats))) {
        ServerStep::Reply(Some(Response::ChatResponse(ChatResponse::Chats(v)))) => assert!(v.is_empty()),
        _ => panic!("expected chats"),
    }
}
