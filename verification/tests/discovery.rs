use drone_network::discovery::NetDiscovery;
use drone_network::wire::{FloodResponse, NodeType};

#[test]
fn parse_network_builds_both_directions() {
    let mut d = NetDiscovery::new(1000);
    d.add_response(FloodResponse {
        flood_id: 7,
        path_trace: vec![(1, NodeType::Client), (10, NodeType::Drone), (20, NodeType::Server)],
    });
    d.add_response(FloodResponse {
        flood_id: 7,
        path_trace: vec![(1, NodeType::Client), (10, NodeType::Drone), (11, NodeType::Drone)],
    });
    let t = d.parse_network();
    assert_eq!(t.neighbours(1).unwrap(), &vec![10]);
    assert_eq!(t.neighbours(10).unwrap(), &vec![20, 1, 11]);
    assert_eq!(t.neighbours(20).unwrap(), &vec![10]);
    assert_eq!(t.neighbours(11).unwrap(), &vec![10]);
    assert!(d.responses.is_empty());
    assert_eq!(t.route_to_peer(1, 20).unwrap(), vec![1, 10, 20]);
}

#[test]
fn discovery_state() {
    let mut d = NetDiscovery::new(500);
    assert!(!d.get_ongoing());
    assert_eq!(d.get_id(), 0);
    d.set_ongoing(true);
    assert!(d.get_ongoing());
    assert_eq!(d.get_elapsed(530), 30);
    d.init(900);
    assert!(d.get_ongoing());
    assert_eq!(d.get_elapsed(950), 50);
}
