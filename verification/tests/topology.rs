use drone_network::topology::NetworkTopology;

fn link(t: &mut NetworkTopology, a: u8, b: u8) {
    t.insert_hop(a, b);
    t.insert_hop(b, a);
}

#[test]
fn route_through_drones() {
    let mut t = NetworkTopology::new();
    link(&mut t, 1, 10);
    link(&mut t, 10, 11);
    link(&mut t, 11, 20);
    link(&mut t, 1, 12);
    let r = t.route_to_peer(1, 20).unwrap();
    assert_eq!(r, vec![1, 10, 11, 20]);
}

#[test]
fn shortest_route_is_found_first() {
    let mut t = NetworkTopology::new();
    link(&mut t, 1, 10);
    link(&mut t, 10, 11);
    link(&mut t, 11, 12);
    link(&mut t, 12, 20);
    link(&mut t, 1, 13);
    link(&mut t, 13, 20);
    let r = t.route_to_peer(1, 20).unwrap();
    assert_eq!(r, vec![1, 13, 20]);
}

#[test]
fn no_route_to_unreachable_peer() {
    let mut t = NetworkTopology::new();
    link(&mut t, 1, 10);
    link(&mut t, 30, 20);
    assert!(t.route_to_peer(1, 20).is_none());
}

#[test]
fn route_to_self() {
    let t = NetworkTopology::new();
    assert_eq!(t.route_to_peer(5, 5).unwrap(), vec![5]);
}

#[test]
fn insert_hop_keeps_lists_distinct() {
    let mut t = NetworkTopology::new();
    t.insert_hop(1, 2);
    t.insert_hop(1, 2);
    t.insert_hop(1, 3);
    assert_eq!(t.neighbours(1).unwrap(), &vec![2, 3]);
    assert!(t.neighbours(2).is_none());
}

#[test]
fn breadth_first_route_is_shortest() {
    let mut t = NetworkTopology::new();
    t.insert_hop(1, 3);
    t.insert_hop(1, 2);
    t.insert_hop(3, 5);
    t.insert_hop(5, 4);
    t.insert_hop(2, 4);
    assert_eq!(t.route_to_peer(1, 4).unwrap(), vec![1, 2, 4]);
    assert!(t.route_to_peer(1, 9).is_none());
}

#[test]
fn equally_short_routes_follow_learning_order() {
    let mut t = NetworkTopology::new();
    link(&mut t, 1, 11);
    link(&mut t, 1, 10);
    link(&mut t, 10, 20);
    link(&mut t, 11, 20);
    assert_eq!(t.route_to_peer(1, 20).unwrap(), vec![1, 11, 20]);
    let mut u = NetworkTopology::new();
    link(&mut u, 1, 10);
    link(&mut u, 1, 11);
    link(&mut u, 10, 20);
    link(&mut u, 11, 20);
    assert_eq!(u.route_to_peer(1, 20).unwrap(), vec![1, 10, 20]);
}
