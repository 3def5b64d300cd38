use drone_network::message::{Message, Request};
use drone_network::node::{CommandOutcome, Node, NodeAction, NodeCommand, SimControllerMessage};
use drone_network::packet_sender::PacketSenderMessage;
use drone_network::wire::{Ack, FloodRequest, FloodResponse, Fragment, Nack, NackType, NodeType, Packet, PacketType, SourceRoutingHeader};
use drone_network::fragmentation::fragment_data;

fn packet(hops: Vec<u8>, session_id: u64, pack_type: PacketType) -> Packet {
    Packet { routing_header: SourceRoutingHeader { hop_index: 1, hops }, session_id, pack_type }
}

#[test]
fn single_fragment_message_is_acked_and_delivered() {
    let mut n = Node::new(20, NodeType::Server, 1000);
    let mut frags = fragment_data(&vec![5, 6, 7]);
    let f: Fragment = frags.remove(0);
    let actions = n.handle_packet(packet(vec![1, 10, 20], 99, PacketType::MsgFragment(f)), 1000);
    assert_eq!(actions.len(), 2);
    match &actions[0] {
        NodeAction::ToPacketSender(PacketSenderMessage::Packet((peer, session, PacketType::Ack(a)))) => {
            assert_eq!((*peer, *session, a.fragment_index), (1, 99, 0));
        }
        _ => panic!("expected an ack"),
    }
    match &actions[1] {
        NodeAction::Deliver(peer, session, data) => {
            assert_eq!((*peer, *session), (1, 99));
            assert_eq!(&data[..3], &[5, 6, 7]);
            assert_eq!(data.len(), 128);
        }
        _ => panic!("expected a delivery"),
    }
    assert!(n.fragment_constructors.is_empty());
}

#[test]
fn two_fragment_message_is_kept_until_whole() {
    let mut n = Node::new(20, NodeType::Server, 1000);
    let f0 = Fragment { fragment_index: 0, total_n_fragments: 2, length: 128, data: vec![1u8; 128] };
    let f1 = Fragment { fragment_index: 1, total_n_fragments: 2, length: 128, data: vec![2u8; 128] };
    let actions = n.handle_packet(packet(vec![1, 10, 20], 7, PacketType::MsgFragment(f1)), 1000);
    assert_eq!(actions.len(), 1);
    match &actions[0] {
        NodeAction::ToPacketSender(PacketSenderMessage::Packet((peer, session, PacketType::Ack(a)))) => {
            assert_eq!((*peer, *session, a.fragment_index), (1, 7, 1));
        }
        _ => panic!("expected an ack"),
    }
    assert_eq!(n.fragment_constructors.len(), 1);
    let actions = n.handle_packet(packet(vec![1, 10, 20], 7, PacketType::MsgFragment(f0)), 1000);
    assert_eq!(actions.len(), 2);
    match &actions[0] {
        NodeAction::ToPacketSender(PacketSenderMessage::Packet((peer, session, PacketType::Ack(a)))) => {
            assert_eq!((*peer, *session, a.fragment_index), (1, 7, 0));
        }
        _ => panic!("expected an ack"),
    }
    match &actions[1] {
        NodeAction::Deliver(peer, session, data) => {
            assert_eq!((*peer, *session), (1, 7));
            let mut expected = vec![1u8; 128];
            expected.extend(vec![2u8; 128]);
            assert_eq!(data, &expected);
        }
        _ => panic!("expected a delivery"),
    }
    assert!(n.fragment_constructors.is_empty());
}

#[test]
fn ack_goes_to_packet_sender() {
    let mut n = Node::new(1, NodeType::Client, 0);
    let actions = n.handle_packet(packet(vec![20, 10, 1], 4, PacketType::Ack(Ack { fragment_index: 3 })), 0);
    assert_eq!(actions.len(), 1);
    assert!(matches!(
        actions[0],
        NodeAction::ToPacketSender(PacketSenderMessage::AckedFragment((20, 4, 3)))
    ));
}

#[test]
fn flood_request_is_answered_with_own_hop() {
    let mut n = Node::new(20, NodeType::Server, 0);
    let req = FloodRequest { flood_id: 5, initiator_id: 1, path_trace: vec![(1, NodeType::Client), (10, NodeType::Drone)] };
    let actions = n.handle_packet(packet(vec![], 77, PacketType::FloodRequest(req)), 0);
    assert_eq!(actions.len(), 1);
    match &actions[0] {
        NodeAction::ToPacketSender(PacketSenderMessage::Packet((p, s, PacketType::FloodResponse(r)))) => {
            assert_eq!((*p, *s, r.flood_id), (20, 77, 5));
            assert_eq!(r.path_trace, vec![(1, NodeType::Client), (10, NodeType::Drone), (20, NodeType::Server)]);
        }
        _ => panic!("expected a flood response"),
    }
}

#[test]
fn discovery_gathers_responses_then_builds_topology() {
    let mut n = Node::new(1, NodeType::Client, 0);
    let m = n.trigger_network_discovery(1000);
    let flood_id = match m {
        PacketSenderMessage::Packet((p, _, PacketType::FloodRequest(r))) => {
            assert_eq!(p, 1);
            assert_eq!(r.path_trace, vec![(1, NodeType::Client)]);
            r.flood_id
        }
        _ => panic!("expected a flood request"),
    };
    let resp = FloodResponse { flood_id, path_trace: vec![(1, NodeType::Client), (10, NodeType::Drone), (20, NodeType::Server)] };
    let stale = FloodResponse { flood_id: flood_id.wrapping_add(1), path_trace: vec![(1, NodeType::Client), (30, NodeType::Drone)] };
    assert!(n.handle_packet(packet(vec![20, 10, 1], 0, PacketType::FloodResponse(resp)), 1010).is_empty());
    assert!(n.handle_packet(packet(vec![30, 1], 0, PacketType::FloodResponse(stale)), 1010).is_empty());
    let early = n.poll_discovery(1020);
    assert!(early.topology.is_none());
    assert_eq!(early.timeout, Some(30));
    let done = n.poll_discovery(1051);
    assert_eq!(done.timeout, None);
    let t = done.topology.unwrap();
    assert_eq!(t.route_to_peer(1, 20).unwrap(), vec![1, 10, 20]);
    assert!(t.neighbours(30).is_none());
    let idle = n.poll_discovery(2000);
    assert!(idle.topology.is_none() && idle.timeout.is_none());
}

#[test]
fn routing_nack_restarts_discovery_but_drop_does_not() {
    let mut n = Node::new(1, NodeType::Client, 0);
    let dropped = Nack { fragment_index: 0, nack_type: NackType::Dropped };
    assert!(n.handle_packet(packet(vec![10, 1], 1, PacketType::Nack(dropped)), 5).is_empty());
    assert!(!n.net_d.ongoing);
    let wrong = Nack { fragment_index: 0, nack_type: NackType::ErrorInRouting(30) };
    let actions = n.handle_packet(packet(vec![10, 1], 1, PacketType::Nack(wrong)), 500);
    assert_eq!(actions.len(), 1);
    assert!(n.net_d.ongoing);
    assert_eq!(n.net_d.start_time, 500);
}

#[test]
fn message_is_sent_as_fragments_in_one_session() {
    let n = Node::new(1, NodeType::Client, 0);
    let data: Vec<u8> = (0..200u32).map(|i| i as u8).collect();
    let msgs = n.send_data_message(20, Some(8), &data);
    assert_eq!(msgs.len(), 2);
    for (i, m) in msgs.iter().enumerate() {
        match m {
            PacketSenderMessage::Packet((p, s, PacketType::MsgFragment(f))) => {
                assert_eq!((*p, *s), (20, 8));
                assert_eq!(f.fragment_index, i as u64);
                assert_eq!(f.total_n_fragments, 2);
            }
            _ => panic!("expected fragments"),
        }
    }
    let random = n.send_data_message(20, None, &data);
    let sessions: Vec<u64> = random
        .iter()
        .map(|m| match m {
            PacketSenderMessage::Packet((_, s, _)) => *s,
            _ => panic!(),
        })
        .collect();
    assert_eq!(sessions[0], sessions[1]);
}

#[test]
fn commands_of_the_controller() {
    let mut n = Node::new(7, NodeType::Client, 0);
    assert!(matches!(n.handle_command(NodeCommand::Quit, 10), CommandOutcome::Stop));
    match n.handle_command(NodeCommand::AddNeighbour(3), 40) {
        CommandOutcome::Discover(PacketSenderMessage::Packet((p, _, PacketType::FloodRequest(r)))) => {
            assert_eq!(p, 7);
            assert_eq!(r.path_trace, vec![(7, NodeType::Client)]);
            assert_eq!(r.flood_id, n.net_d.last_id);
        }
        _ => panic!("expected a discovery"),
    }
    assert!(n.net_d.ongoing && n.net_d.start_time == 40);
    assert!(matches!(n.handle_command(NodeCommand::RemoveNeighbour(3), 90), CommandOutcome::Discover(_)));
    assert_eq!(n.net_d.start_time, 90);
    match n.handle_command(NodeCommand::SendMessage(SimControllerMessage::SendMessageToPeer(4, Message::Request(Request::ServerType))), 100) {
        CommandOutcome::Forward(SimControllerMessage::SendMessageToPeer(4, Message::Request(Request::ServerType))) => {}
        _ => panic!("expected the request to be handed on"),
    }
}
