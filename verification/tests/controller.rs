use drone_network::config::{Client, Config, Configuration, Configurations, Drone, Server, find_configuration};
use drone_network::kinds::{ClientType, DroneType, NodeKind, ServerType};
use drone_network::message::Request;
use drone_network::simulation_controller::{ControllerCommand, NodeOrder, SimulationController};

fn order_of(c: &ControllerCommand) -> (u8, String) {
    let o = match &c.order {
        NodeOrder::AddNeighbour(n) => format!("add {}", n),
        NodeOrder::RemoveNeighbour(n) => format!("remove {}", n),
        NodeOrder::Crash => "crash".to_string(),
        NodeOrder::Quit => "quit".to_string(),
        NodeOrder::SendMessage(_) => "send".to_string(),
        NodeOrder::Spawn(k) => format!("spawn {:?}", k),
    };
    (c.target, o)
}

fn orders(v: &[ControllerCommand]) -> Vec<(u8, String)> {
    v.iter().map(order_of).collect()
}

fn neighbours(c: &SimulationController, id: u8) -> Vec<u8> {
    let mut v: Vec<u8> = c.neighbours_of(id).unwrap().iter().cloned().collect();
    v.sort();
    v
}

#[test]
fn ids_are_the_smallest_free_from_the_preference() {
    let mut c = SimulationController::new(1);
    assert_eq!(c.add_drone(None, Some(DroneType::Skylink)), (0, DroneType::Skylink));
    assert_eq!(c.add_server(Some(0), ServerType::Content), 1);
    assert_eq!(c.add_client(Some(5), ClientType::Web), 5);
    assert_eq!(c.add_client(Some(5), ClientType::Chat), 6);
    assert!(c.contains_node(5) && c.contains_node(6) && !c.contains_node(2));
    assert_eq!(c.kind_of(6), Some(NodeKind::Client(ClientType::Chat)));
}

#[test]
fn drones_without_type_get_least_used_in_order() {
    let mut c = SimulationController::new(1);
    assert_eq!(c.add_drone(None, None).1, DroneType::RustyDrones);
    assert_eq!(c.add_drone(None, None).1, DroneType::BagelBomber);
    assert_eq!(c.add_drone(None, Some(DroneType::BobryWLocie)).1, DroneType::BobryWLocie);
    assert_eq!(c.add_drone(None, None).1, DroneType::DRONE);
    assert_eq!(c.choose_drone_type(Some(DroneType::Rust)), DroneType::Rust);
}

#[test]
fn add_edge_links_both_ways() {
    let mut c = SimulationController::new(1);
    c.add_drone(Some(1), None);
    c.add_drone(Some(2), None);
    let cmds = c.add_edge(1, 2).unwrap();
    assert_eq!(orders(&cmds), vec![(1, "add 2".to_string()), (2, "add 1".to_string())]);
    assert_eq!(neighbours(&c, 1), vec![2]);
    assert_eq!(neighbours(&c, 2), vec![1]);
}

#[test]
fn add_edge_errors() {
    let mut c = SimulationController::new(1);
    c.add_drone(Some(1), None);
    assert_eq!(c.add_edge(1, 1).unwrap_err(), "Cannot add edge from node 1 to itself!");
    assert_eq!(c.add_edge(1, 9).unwrap_err(), "Node with ID 1 not found!");
    assert_eq!(c.add_edge(9, 1).unwrap_err(), "Node with ID 1 not found!");
    assert_eq!(c.add_edge(8, 9).unwrap_err(), "Nodes with IDs 8 and 9 not found!");
    assert!(c.neighbours_of(1).unwrap().is_empty());
}

#[test]
fn delete_edge_undoes_add_edge() {
    let mut c = SimulationController::new(1);
    c.add_drone(Some(1), None);
    c.add_server(Some(2), ServerType::Communication);
    c.add_edge(1, 2).unwrap();
    let (cmds, r) = c.delete_edge(2, 1);
    assert!(r.is_ok());
    assert_eq!(orders(&cmds), vec![(2, "remove 1".to_string()), (1, "remove 2".to_string())]);
    assert!(neighbours(&c, 1).is_empty() && neighbours(&c, 2).is_empty());
}

#[test]
fn delete_edge_errors() {
    let mut c = SimulationController::new(1);
    c.add_drone(Some(1), None);
    let (cmds, r) = c.delete_edge(3, 3);
    assert!(cmds.is_empty());
    assert_eq!(r.unwrap_err(), "Cannot delete edge from node 3 to itself!");
    let (cmds, r) = c.delete_edge(1, 7);
    assert_eq!(orders(&cmds), vec![(1, "remove 7".to_string())]);
    assert_eq!(r.unwrap_err(), "Node with ID 7 not found!");
    let (_, r) = c.delete_edge(7, 1);
    assert_eq!(r.unwrap_err(), "Node with ID 7 not found!");
    let (cmds, r) = c.delete_edge(7, 8);
    assert!(cmds.is_empty());
    assert_eq!(r.unwrap_err(), "Node with ID 7 not found!; Node with ID 8 not found!");
}

#[test]
fn delete_node_unlinks_neighbours() {
    let mut c = SimulationController::new(1);
    c.add_drone(Some(1), None);
    c.add_drone(Some(2), None);
    c.add_client(Some(3), ClientType::Web);
    c.add_edge(1, 2).unwrap();
    c.add_edge(3, 1).unwrap();
    let cmds = c.delete_node(1).unwrap();
    assert_eq!(
        orders(&cmds),
        vec![(2, "remove 1".to_string()), (3, "remove 1".to_string()), (1, "crash".to_string())]
    );
    assert!(!c.contains_node(1));
    assert!(neighbours(&c, 2).is_empty() && neighbours(&c, 3).is_empty());
    assert_eq!(orders(&c.delete_node(3).unwrap()), vec![(3, "quit".to_string())]);
    assert_eq!(c.delete_node(1).unwrap_err(), "Node with ID 1 not found!");
}

#[test]
fn teardown_and_crash_orders() {
    let mut c = SimulationController::new(1);
    c.add_client(Some(9), ClientType::Chat);
    c.add_drone(Some(4), None);
    c.add_server(Some(7), ServerType::Content);
    c.add_drone(Some(2), None);
    assert_eq!(orders(&c.crash_all()), vec![(2, "crash".to_string()), (4, "crash".to_string())]);
    let cmds = c.destroy_network();
    assert_eq!(
        orders(&cmds),
        vec![(2, "crash".to_string()), (4, "crash".to_string()), (7, "quit".to_string()), (9, "quit".to_string())]
    );
    assert!(!c.contains_node(2) && !c.contains_node(9));
}

#[test]
fn send_request_needs_a_client() {
    let mut c = SimulationController::new(1);
    c.add_client(Some(3), ClientType::Chat);
    c.add_drone(Some(4), None);
    let cmd = c.send_request(3, 20, Request::ServerType).unwrap();
    assert_eq!(cmd.target, 3);
    assert!(matches!(cmd.order, NodeOrder::SendMessage(_)));
    assert_eq!(c.send_request(4, 20, Request::ServerType).unwrap_err(), "Client with ID 4 not found!");
}

fn sample_config() -> Config {
    Config {
        drone: vec![
            Drone { id: 1, connected_node_ids: vec![2, 10, 100] },
            Drone { id: 2, connected_node_ids: vec![1, 10] },
        ],
        server: vec![Server {
            id: 10,
            connected_drone_ids: vec![1, 2],
            server_type: "Communication".to_string(),
            base_path: "/tmp/rust".to_string(),
        }],
        client: vec![Client { id: 100, connected_drone_ids: vec![1], client_type: "ChatClient".to_string() }],
    }
}

#[test]
fn spawn_network_from_config_builds_nodes_and_links() {
    let mut c = SimulationController::new(3);
    c.add_drone(Some(50), None);
    let (cmds, r) = c.spawn_network_from_config(1, &sample_config());
    assert!(r.is_ok());
    assert_eq!(c.active_configuration, 1);
    assert!(!c.contains_node(50));
    assert_eq!(neighbours(&c, 1), vec![2, 10, 100]);
    assert_eq!(neighbours(&c, 2), vec![1, 10]);
    assert_eq!(neighbours(&c, 10), vec![1, 2]);
    assert_eq!(neighbours(&c, 100), vec![1]);
    let o = orders(&cmds);
    assert_eq!(o[0], (50, "crash".to_string()));
    assert_eq!(o[1], (1, "spawn Drone(RustyDrones)".to_string()));
    assert_eq!(o[2], (2, "spawn Drone(BagelBomber)".to_string()));
    assert_eq!(o[3], (10, "spawn Server(Communication)".to_string()));
    assert_eq!(o[4], (100, "spawn Client(Chat)".to_string()));
    // Each link once, though listed from both ends.
    assert_eq!(o.len(), 5 + 2 * 4);
}

#[test]
fn spawn_network_from_config_reports_a_bad_link() {
    let mut c = SimulationController::new(3);
    let mut cfg = sample_config();
    cfg.drone[1].connected_node_ids.push(77);
    let (_, r) = c.spawn_network_from_config(1, &cfg);
    assert_eq!(r.unwrap_err(), "Failed to add edge (2, 77): Node with ID 2 not found!");
    assert_eq!(c.active_configuration, 3);
}

#[test]
fn spawn_network_adds_both_directions() {
    let (c, cmds) = drone_network::network_setup::spawn_network(&sample_config()).unwrap();
    assert_eq!(c.active_configuration, 0);
    assert_eq!(neighbours(&c, 1), vec![2, 10, 100]);
    // Links listed from both ends are added twice.
    assert_eq!(cmds.len(), 4 + 2 * 8);
}

#[test]
fn configurations_are_found_by_id() {
    let confs = Configurations {
        configuration: vec![
            Configuration { id: 1, name: "a".to_string(), description: "d".to_string(), file_name: "a.toml".to_string() },
            Configuration { id: 2, name: "b".to_string(), description: "e".to_string(), file_name: "b.toml".to_string() },
        ],
    };
    assert_eq!(find_configuration(&confs, 2).unwrap(), "examples/config/b.toml");
    assert_eq!(find_configuration(&confs, 3).unwrap_err(), "Configuration with ID 3 not found!");
}

#[test]
fn deleting_a_node_just_added_restores_the_network() {
    let mut c = SimulationController::new(1);
    c.add_drone(Some(1), None);
    c.add_drone(Some(2), None);
    c.add_edge(1, 2).unwrap();
    let id = c.add_server(None, ServerType::Content);
    assert_eq!(id, 0);
    assert_eq!(orders(&c.delete_node(id).unwrap()), vec![(0, "quit".to_string())]);
    assert!(!c.contains_node(0));
    assert_eq!(neighbours(&c, 1), vec![2]);
    assert_eq!(neighbours(&c, 2), vec![1]);
    assert_eq!(c.first_free_id(None), Some(0));
    assert_eq!(c.first_free_id(Some(1)), Some(3));
}

#[test]
fn config_acceptance() {
    assert!(drone_network::network_setup::config_fits(&sample_config()));
    let mut bad = sample_config();
    bad.server[0].server_type = "Web".to_string();
    assert!(!drone_network::network_setup::config_fits(&bad));
    let mut full = sample_config();
    full.drone = (0..=255u16).map(|i| Drone { id: i as u8, connected_node_ids: vec![] }).collect();
    assert!(!drone_network::network_setup::config_fits(&full));
}

#[test]
fn configuration_lookup_tears_down_first() {
    let confs = Configurations {
        configuration: vec![Configuration { id: 1, name: "a".to_string(), description: "d".to_string(), file_name: "a.toml".to_string() }],
    };
    let mut c = SimulationController::new(4);
    c.add_drone(Some(3), None);
    c.add_client(Some(5), ClientType::Web);
    let (cmds, r) = c.tear_down_and_find_configuration(&confs, 9);
    assert_eq!(r.unwrap_err(), "Configuration with ID 9 not found!");
    assert_eq!(orders(&cmds), vec![(3, "crash".to_string()), (5, "quit".to_string())]);
    assert!(!c.contains_node(3) && !c.contains_node(5));
    assert_eq!(c.active_configuration, 4);
    let (cmds, r) = c.tear_down_and_find_configuration(&confs, 1);
    assert!(cmds.is_empty());
    assert_eq!(r.unwrap(), "examples/config/a.toml");
}
