use drone_network::fragmentation::fragment_data;
use drone_network::packet_sender::{Dispatch, PacketSender, PacketSenderMessage, PACKET_RECV_TIMEOUT};
use drone_network::topology::NetworkTopology;
use drone_network::wire::{Ack, FloodRequest, NodeType, PacketType};

fn line_topology() -> NetworkTopology {
    let mut t = NetworkTopology::new();
    for (a, b) in [(1u8, 10u8), (10, 20)] {
        t.insert_hop(a, b);
        t.insert_hop(b, a);
    }
    t
}

#[test]
fn packets_go_to_their_queues() {
    let mut s = PacketSender::new(1);
    let mut frags = fragment_data(&vec![1, 2, 3]);
    assert!(s.handle_message(PacketSenderMessage::Packet((20, 5, PacketType::MsgFragment(frags.remove(0)))), 1000));
    assert!(s.handle_message(PacketSenderMessage::Packet((20, 5, PacketType::Ack(Ack { fragment_index: 0 }))), 1000));
    let flood = FloodRequest::initialize(9, 1, NodeType::Client);
    assert!(s.handle_message(PacketSenderMessage::Packet((1, 6, PacketType::FloodRequest(flood))), 1000));
    assert_eq!(s.ackable_packet_send_queue.len(), 1);
    assert_eq!(s.ackable_packet_send_queue[0].last_send, None);
    assert_eq!(s.packet_send_queue.len(), 1);
    assert_eq!(s.flood_packets_queue.len(), 1);
    assert_eq!(s.receive_timeout(), 0);
    assert!(!s.handle_message(PacketSenderMessage::Quit, 1000));
}

#[test]
fn acked_fragment_leaves_queue() {
    let mut s = PacketSender::new(1);
    let frags = fragment_data(&vec![0u8; 300]);
    for f in frags {
        s.handle_message(PacketSenderMessage::Packet((20, 5, PacketType::MsgFragment(f))), 1000);
    }
    assert_eq!(s.ackable_packet_send_queue.len(), 3);
    s.handle_message(PacketSenderMessage::AckedFragment((20, 5, 1)), 1000);
    assert_eq!(s.ackable_packet_send_queue.len(), 2);
    s.handle_message(PacketSenderMessage::AckedFragment((20, 6, 0)), 1000);
    assert_eq!(s.ackable_packet_send_queue.len(), 2);
    assert_eq!(s.receive_timeout(), PACKET_RECV_TIMEOUT);
}

#[test]
fn queue_round_routes_and_resends() {
    let t = line_topology();
    let mut s = PacketSender::new(1);
    let mut frags = fragment_data(&vec![1, 2, 3]);
    s.handle_message(PacketSenderMessage::Packet((20, 5, PacketType::MsgFragment(frags.remove(0)))), 1000);
    s.handle_message(PacketSenderMessage::Packet((20, 5, PacketType::Ack(Ack { fragment_index: 0 }))), 1000);
    s.handle_message(PacketSenderMessage::Packet((1, 6, PacketType::FloodRequest(FloodRequest::initialize(9, 1, NodeType::Client)))), 1000);
    let round = s.process_queue(1000, false, &t);
    assert_eq!(round.flood.len(), 1);
    assert!(matches!(&round.flood[0], Dispatch::ToAllNeighbours(p) if p.session_id == 6 && p.routing_header.hops.is_empty()));
    assert_eq!(round.standard.len(), 1);
    match &round.standard[0] {
        Dispatch::ToNextHop(p) => {
            assert_eq!(p.routing_header.hops, vec![1, 10, 20]);
            assert_eq!(p.routing_header.hop_index, 1);
        }
        _ => panic!("expected a routed packet"),
    }
    assert_eq!(round.ackable.len(), 1);
    assert!(matches!(&round.ackable[0], Dispatch::ToNextHop(_)));
    assert_eq!(s.ackable_packet_send_queue[0].retries, 1);
    assert_eq!(s.ackable_packet_send_queue[0].last_send, Some(1000));
    let again = s.process_queue(1100, false, &t);
    assert!(matches!(&again.ackable[0], Dispatch::Held));
    assert!(s.packet_send_queue.is_empty() && s.flood_packets_queue.is_empty());
}

#[test]
fn nothing_but_floods_during_discovery() {
    let t = line_topology();
    let mut s = PacketSender::new(1);
    s.handle_message(PacketSenderMessage::Packet((20, 5, PacketType::Ack(Ack { fragment_index: 0 }))), 1000);
    let round = s.process_queue(1000, true, &t);
    assert!(round.standard.is_empty() && round.ackable.is_empty());
    assert_eq!(s.packet_send_queue.len(), 1);
}

#[test]
fn unroutable_packet_is_dropped() {
    let t = line_topology();
    let mut s = PacketSender::new(1);
    s.handle_message(PacketSenderMessage::Packet((99, 5, PacketType::Ack(Ack { fragment_index: 0 }))), 1000);
    let round = s.process_queue(1000, false, &t);
    assert!(matches!(&round.standard[0], Dispatch::Unroutable));
    assert!(s.packet_send_queue.is_empty());
}

#[test]
fn fragment_given_up_after_max_retries() {
    let t = line_topology();
    let mut s = PacketSender::new(1);
    let mut frags = fragment_data(&vec![1]);
    s.handle_message(PacketSenderMessage::Packet((20, 5, PacketType::MsgFragment(frags.remove(0)))), 1000);
    let mut now = 1000;
    for _ in 0..5 {
        s.process_queue(now, false, &t);
        now += 150;
    }
    assert_eq!(s.ackable_packet_send_queue[0].retries, 5);
    s.process_queue(now, false, &t);
    assert!(s.ackable_packet_send_queue.is_empty());
}

#[test]
fn fragment_queued_at_time_zero_goes_out_at_once() {
    let t = line_topology();
    let mut s = PacketSender::new(1);
    let mut frags = fragment_data(&vec![7]);
    assert!(s.handle_message(PacketSenderMessage::Packet((20, 3, PacketType::MsgFragment(frags.remove(0)))), 0));
    let round = s.process_queue(0, false, &t);
    assert!(matches!(&round.ackable[0], Dispatch::ToNextHop(p) if p.routing_header.hops == vec![1, 10, 20]));
    assert_eq!(s.ackable_packet_send_queue[0].last_send, Some(0));
    let again = s.process_queue(149, false, &t);
    assert!(matches!(&again.ackable[0], Dispatch::Held));
    let later = s.process_queue(150, false, &t);
    assert!(matches!(&later.ackable[0], Dispatch::ToNextHop(_)));
}

#[test]
fn packets_take_the_route_that_the_search_finds() {
    let mut t = NetworkTopology::new();
    for (a, b) in [(1u8, 11u8), (1, 10), (10, 20), (11, 20)] {
        t.insert_hop(a, b);
        t.insert_hop(b, a);
    }
    let expected = t.route_to_peer(1, 20).unwrap();
    let mut s = PacketSender::new(1);
    s.handle_message(PacketSenderMessage::Packet((20, 5, PacketType::Ack(Ack { fragment_index: 0 }))), 0);
    let round = s.process_queue(0, false, &t);
    match &round.standard[0] {
        Dispatch::ToNextHop(p) => assert_eq!(p.routing_header.hops, expected),
        _ => panic!("expected a routed packet"),
    }
}
