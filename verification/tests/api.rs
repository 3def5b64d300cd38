use drone_network::api::{
    add_node, display_name, get_deserializable_configurations, get_nodes, get_node_data, get_topology, gimme_request, node_catalogue,
    send_message, NewNode, Payload,
};
use drone_network::config::{Configuration, Configurations};
use drone_network::kinds::{ClientType, DroneType, ServerType};
use drone_network::message::{ChatRequest, ContentRequest, Message, Request};
use drone_network::node::SimControllerMessage;
use drone_network::simulation_controller::{NodeOrder, SimulationController};

fn empty() -> Payload {
    Payload {
        id: None,
        from_id: None,
        to_id: None,
        message: None,
        name: None,
        private: None,
        password: None,
        file_name: None,
        content: None,
    }
}

#[test]
fn requests_from_payloads() {
    let mut p = empty();
    assert!(matches!(gimme_request("server-type", &p), Ok(Request::ServerType)));
    assert_eq!(gimme_request("join", &p).unwrap_err(), "Missing or invalid chat_id");
    p.id = Some(4);
    p.password = Some("pw".to_string());
    match gimme_request("join", &p).unwrap() {
        Request::ChatRequest(ChatRequest::Join(4, Some(pw))) => assert_eq!(pw, "pw"),
        _ => panic!("expected a join"),
    }
    assert_eq!(gimme_request("send-message", &p).unwrap_err(), "Missing or invalid message");
    p.message = Some("hi".to_string());
    match gimme_request("send-message", &p).unwrap() {
        Request::ChatRequest(ChatRequest::SendMessage(4, m)) => assert_eq!(m, "hi"),
        _ => panic!("expected a message"),
    }
    assert!(matches!(gimme_request("leave", &p), Ok(Request::ChatRequest(ChatRequest::Leave(4)))));
    assert!(matches!(gimme_request("delete", &p), Ok(Request::ChatRequest(ChatRequest::Delete(4)))));
    assert!(matches!(gimme_request("get-messages", &p), Ok(Request::ChatRequest(ChatRequest::GetMessages(4)))));
    assert!(matches!(gimme_request("get-chats", &p), Ok(Request::ChatRequest(ChatRequest::GetChats))));
    assert_eq!(gimme_request("bogus", &p).unwrap_err(), "Unsupported message type: bogus");
}

#[test]
fn create_request_defaults_to_public() {
    let mut p = empty();
    assert_eq!(gimme_request("create", &p).unwrap_err(), "Missing or invalid name");
    p.name = Some("room".to_string());
    match gimme_request("create", &p).unwrap() {
        Request::ChatRequest(ChatRequest::Create(c)) => {
            assert_eq!(c.name, "room");
            assert!(c.public);
            assert!(c.password.is_none());
        }
        _ => panic!("expected a create"),
    }
    p.private = Some(true);
    match gimme_request("create", &p).unwrap() {
        Request::ChatRequest(ChatRequest::Create(c)) => assert!(!c.public),
        _ => panic!("expected a create"),
    }
}

#[test]
fn file_requests() {
    let mut p = empty();
    assert!(matches!(gimme_request("list-public-files", &p), Ok(Request::ContentRequest(ContentRequest::ListPublicFiles))));
    assert!(matches!(gimme_request("list-private-files", &p), Ok(Request::ContentRequest(ContentRequest::ListPrivateFiles))));
    assert_eq!(gimme_request("get-public-file", &p).unwrap_err(), "Missing or invalid file_name");
    p.file_name = Some("f".to_string());
    assert_eq!(gimme_request("write-private-file", &p).unwrap_err(), "Missing or invalid content");
    p.content = Some("c".to_string());
    match gimme_request("write-public-file", &p).unwrap() {
        Request::ContentRequest(ContentRequest::WritePublicFile(f, c)) => assert_eq!((f.as_str(), c.as_str()), ("f", "c")),
        _ => panic!(),
    }
    match gimme_request("get-private-file", &p).unwrap() {
        Request::ContentRequest(ContentRequest::GetPrivateFile(f)) => assert_eq!(f, "f"),
        _ => panic!(),
    }
}

#[test]
fn sending_messages_checks_ids_and_client() {
    let mut c = SimulationController::new(1);
    c.add_client(Some(3), ClientType::Chat);
    c.add_drone(Some(4), None);
    let mut p = empty();
    assert_eq!(send_message(&c, "get-chats", &p).unwrap_err(), "Missing or invalid from_id");
    p.from_id = Some(300);
    assert_eq!(send_message(&c, "get-chats", &p).unwrap_err(), "Missing or invalid to_id");
    p.to_id = Some(256);
    assert_eq!(send_message(&c, "get-chats", &p).unwrap_err(), "Invalid from_id: 300");
    p.from_id = Some(4);
    p.to_id = Some(256);
    assert_eq!(send_message(&c, "get-chats", &p).unwrap_err(), "Invalid to_id: 256");
    p.from_id = Some(255);
    p.to_id = Some(255);
    assert_eq!(send_message(&c, "get-chats", &p).unwrap_err(), "Failed to send message: Client with ID 255 not found!");
    p.from_id = Some(4);
    p.to_id = Some(20);
    assert_eq!(send_message(&c, "join", &p).unwrap_err(), "Invalid request: Missing or invalid chat_id");
    assert_eq!(send_message(&c, "get-chats", &p).unwrap_err(), "Failed to send message: Client with ID 4 not found!");
    p.from_id = Some(3);
    let cmd = send_message(&c, "get-chats", &p).unwrap();
    assert_eq!(cmd.target, 3);
    assert!(matches!(
        cmd.order,
        NodeOrder::SendMessage(SimControllerMessage::SendMessageToPeer(20, Message::Request(Request::ChatRequest(ChatRequest::GetChats))))
    ));
}

#[test]
fn adding_nodes_announces_them() {
    let mut c = SimulationController::new(1);
    let (id, text) = add_node(&mut c, NewNode::Drone(None));
    assert_eq!((id, text.as_str()), (0, "Drone of type 'None' created"));
    let (id, text) = add_node(&mut c, NewNode::Drone(Some(DroneType::LedronJames)));
    assert_eq!((id, text.as_str()), (1, "Drone of type 'Some(LedronJames)' created"));
    let (id, text) = add_node(&mut c, NewNode::Server(ServerType::Communication));
    assert_eq!((id, text.as_str()), (2, "Server of type 'Communication' created"));
    let (id, text) = add_node(&mut c, NewNode::Client(ClientType::Web));
    assert_eq!((id, text.as_str()), (3, "Client of type 'Web' created"));
}

#[test]
fn topology_lists_nodes_by_kind_and_links_once() {
    let mut c = SimulationController::new(1);
    c.add_client(Some(1), ClientType::Chat);
    c.add_drone(Some(5), None);
    c.add_server(Some(3), ServerType::Content);
    c.add_drone(Some(2), None);
    c.add_edge(1, 5).unwrap();
    c.add_edge(5, 3).unwrap();
    c.add_edge(2, 5).unwrap();
    let t = get_topology(&c);
    let nodes: Vec<(u8, &str, &str, Option<&str>)> = t
        .nodes
        .iter()
        .map(|n| (n.id, n.label.as_str(), n.node_type.as_str(), n.subtype.as_deref()))
        .collect();
    assert_eq!(
        nodes,
        vec![
            (2, "Drone 2", "drone", None),
            (5, "Drone 5", "drone", None),
            (3, "Server 3", "server", Some("content")),
            (1, "Client 1", "client", Some("chat")),
        ]
    );
    assert_eq!(t.edges, vec![(1, 5), (2, 5), (3, 5)]);
}

#[test]
fn node_data_shows_neighbours() {
    let mut c = SimulationController::new(1);
    c.add_drone(Some(5), None);
    c.add_server(Some(3), ServerType::Communication);
    c.add_client(Some(8), ClientType::Web);
    c.add_edge(5, 8).unwrap();
    c.add_edge(5, 3).unwrap();
    let d = get_node_data(&c, 5).unwrap();
    assert_eq!(d.label, "Drone 5");
    assert_eq!(d.node_type, "drone");
    assert!(d.subtype.is_none());
    assert_eq!(
        d.neighbours,
        vec![(3, "Server 3".to_string(), "server".to_string()), (8, "Client 8".to_string(), "client".to_string())]
    );
    let s = get_node_data(&c, 3).unwrap();
    assert_eq!(s.subtype.as_deref(), Some("communication"));
    assert_eq!(get_node_data(&c, 9).err().unwrap(), "Node with ID 9 not found!");
}

#[test]
fn catalogue_lists_drone_crates() {
    let names = vec![
        "serde".to_string(),
        "wg_drone_skylink".to_string(),
        "wg_2024".to_string(),
        "wg_drone_rustbusters".to_string(),
    ];
    let v = node_catalogue(Some(&names));
    let got: Vec<(&str, &str)> = v.iter().map(|e| (e.name.as_str(), e.node_type.as_str())).collect();
    assert_eq!(
        got,
        vec![
            ("Rust", "drone"),
            ("Skylink", "drone"),
            ("Rustbusters", "drone"),
            ("Chat Client", "client"),
            ("Web Client", "client"),
            ("Content Server", "server"),
            ("Communication Server", "server"),
        ]
    );
}

#[test]
fn catalogue_without_crate_names_lists_no_drone() {
    let v = node_catalogue(None);
    let got: Vec<&str> = v.iter().map(|e| e.name.as_str()).collect();
    assert_eq!(got, vec!["Chat Client", "Web Client", "Content Server", "Communication Server"]);
}

#[test]
fn configurations_mark_the_active_one() {
    let c = SimulationController::new(2);
    let confs = Configurations {
        configuration: vec![
            Configuration { id: 1, name: "a".to_string(), description: "x".to_string(), file_name: "a.toml".to_string() },
            Configuration { id: 2, name: "b".to_string(), description: "y".to_string(), file_name: "b.toml".to_string() },
        ],
    };
    let v = get_deserializable_configurations(&c, &confs);
    assert_eq!(v.len(), 2);
    assert!(!v[0].is_active && v[1].is_active);
    assert_eq!((v[1].id, v[1].name.as_str(), v[1].description.as_str()), (2, "b", "y"));
}

#[test]
fn drone_display_names() {
    assert_eq!(display_name("wg_drone_rusty_drones"), "RustyDrones");
    assert_eq!(display_name("wg_drone_d_r_o_n_e"), "DRONE");
    assert_eq!(display_name("wg_drone_bobry_w_locie"), "BobryWLocie");
    assert_eq!(display_name("wg_drone_lockheedrustin"), "Lockheedrustin");
    assert_eq!(display_name("other_name"), "OtherName");
}

#[test]
fn nodes_from_the_package_manifest() {
    let manifest = "[package]\nname = \"x\"\n\n[dependencies]\nwg_drone_skylink = \"1\"\nserde = \"1\"\nwg_drone_rust_do_it = { git = \"x\" }\n";
    let v = get_nodes(Some(manifest));
    let got: Vec<(&str, &str)> = v.iter().map(|e| (e.name.as_str(), e.node_type.as_str())).collect();
    assert_eq!(
        got,
        vec![
            ("Rust", "drone"),
            ("RustDoIt", "drone"),
            ("Skylink", "drone"),
            ("Chat Client", "client"),
            ("Web Client", "client"),
            ("Content Server", "server"),
            ("Communication Server", "server"),
        ]
    );
    assert_eq!(get_nodes(None).len(), 4);
    assert_eq!(get_nodes(Some("not = [toml")).len(), 4);
    assert_eq!(get_nodes(Some("[package]\nname = \"x\"\n")).len(), 4);
}

#[test]
fn node_id_255_can_send() {
    let mut c = SimulationController::new(1);
    c.add_client(Some(255), ClientType::Chat);
    let mut p = empty();
    p.from_id = Some(255);
    p.to_id = Some(255);
    let cmd = send_message(&c, "get-chats", &p).unwrap();
    assert_eq!(cmd.target, 255);
}
