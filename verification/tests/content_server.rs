use drone_network::content_server::ContentServer;
use drone_network::message::{ContentRequest, ContentResponse, Message, Request, Response};
use drone_network::server_step::ServerStep;

fn path(parts: &[&str]) -> Vec<String> {
    parts.iter().map(|p| p.to_string()).collect()
}

#[test]
fn directories() {
    let s = ContentServer::new(20, "/tmp/rust".to_string());
    assert_eq!(s.base_path, path(&["/tmp/rust", "20", "content"]));
    assert_eq!(s.get_public_dir(), path(&["/tmp/rust", "20", "content", "public"]));
    assert_eq!(s.get_private_dir(7), path(&["/tmp/rust", "20", "content", "7"]));
}

#[test]
fn write_then_read_same_file() {
    let mut s = ContentServer::new(20, "b".to_string());
    let w = s.handle_message(
        7,
        Message::Request(Request::ContentRequest(ContentRequest::WritePrivateFile("f.txt".to_string(), "abc".to_string()))),
    );
    let r = s.handle_message(7, Message::Request(Request::ContentRequest(ContentRequest::GetPrivateFile("f.txt".to_string()))));
    match (w, r) {
        (ServerStep::WriteFile(wp, data), ServerStep::ReadFile(rp)) => {
            assert_eq!(wp, rp);
            assert_eq!(wp, path(&["b", "20", "content", "7", "f.txt"]));
            assert_eq!(data, "abc");
        }
        _ => panic!("expected a write and a read"),
    }
}

#[test]
fn dot_dot_names_are_refused() {
    let s = ContentServer::new(20, "b".to_string());
    for step in [
        s.get_public_file("../x".to_string()),
        s.get_private_file("a..b".to_string(), 3),
        s.write_public_file("..".to_string(), "d".to_string()),
        s.write_private_file("x/../y".to_string(), "d".to_string(), 3),
    ] {
        match step {
            ServerStep::Reply(Some(Response::Error(e))) => assert_eq!(e, "Invalid file name"),
            _ => panic!("expected a refusal"),
        }
    }
    match s.get_public_file("a.b".to_string()) {
        ServerStep::ReadFile(p) => assert_eq!(p, path(&["b", "20", "content", "public", "a.b"])),
        _ => panic!("expected a read"),
    }
}

#[test]
fn names_that_are_not_one_plain_entry_are_refused() {
    let mut s = ContentServer::new(20, "b".to_string());
    for name in ["/etc/passwd", "a/b", "", ".", "a\\b", "sub/"] {
        for step in [
            s.get_public_file(name.to_string()),
            s.get_private_file(name.to_string(), 3),
            s.write_public_file(name.to_string(), "d".to_string()),
            s.write_private_file(name.to_string(), "d".to_string(), 3),
        ] {
            match step {
                ServerStep::Reply(Some(Response::Error(e))) => assert_eq!(e, "Invalid file name"),
                _ => panic!("expected a refusal of {:?}", name),
            }
        }
    }
    let request = Message::Request(Request::ContentRequest(ContentRequest::GetPrivateFile("/etc/passwd".to_string())));
    match s.handle_message(3, request) {
        ServerStep::Reply(Some(Response::Error(e))) => assert_eq!(e, "Invalid file name"),
        _ => panic!("expected a refusal"),
    }
    let request = Message::Request(Request::ContentRequest(ContentRequest::GetPrivateFile(".hidden".to_string())));
    match s.handle_message(3, request) {
        ServerStep::ReadFile(p) => assert_eq!(p, path(&["b", "20", "content", "3", ".hidden"])),
        _ => panic!("expected a read"),
    }
}

#[test]
fn listings_and_answers() {
    let s = ContentServer::new(1, "b".to_string());
    match s.list_public_files() {
        ServerStep::ListDir(p) => assert_eq!(p, path(&["b", "1", "content", "public"])),
        _ => panic!("expected a listing"),
    }
    match s.list_private_files(9) {
        ServerStep::ListDir(p) => assert_eq!(p, path(&["b", "1", "content", "9"])),
        _ => panic!("expected a listing"),
    }
    match ContentServer::files_listed(vec!["x".to_string()]) {
        Response::ContentResponse(ContentResponse::Files(v)) => assert_eq!(v, vec!["x".to_string()]),
        _ => panic!(),
    }
    match ContentServer::listing_failed(true) {
        Response::ContentResponse(ContentResponse::Files(v)) => assert!(v.is_empty()),
        _ => panic!(),
    }
    match ContentServer::listing_failed(false) {
        Response::Error(e) => assert_eq!(e, "Failed to list files"),
        _ => panic!(),
    }
    match ContentServer::file_read(None) {
        Response::Error(e) => assert_eq!(e, "Failed to read file"),
        _ => panic!(),
    }
    match ContentServer::file_read(Some("c".to_string())) {
        Response::ContentResponse(ContentResponse::File(c)) => assert_eq!(c, "c"),
        _ => panic!(),
    }
    assert!(matches!(ContentServer::file_written(), Response::Success));
    assert_eq!(s.get_node_type_str(), "ContentServer");
}

#[test]
fn chat_requests_not_implemented() {
    let mut s = ContentServer::new(1, "b".to_string());
    let r = s.handle_message(
        2,
        Message::Request(Request::ChatRequest(drone_network::message::ChatRequest::GetChats)),
    );
    assert!(matches!(r, ServerStep::Reply(Some(Response::NotImplemented))));
}

#[test]
fn private_directories_are_apart() {
    let s = ContentServer::new(20, "b".to_string());
    assert_ne!(s.get_private_dir(7), s.get_private_dir(8));
    assert_ne!(s.get_private_dir(7), s.get_public_dir());
    assert_ne!(s.get_private_dir(1), s.get_private_dir(11));
}
