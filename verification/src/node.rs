//! The decisions of a network node: what to do with each packet received,
//! when to rebuild the topology, and how to send a message. Channels,
//! threads and clocks stay with the caller, which performs the actions
//! returned here.
use vstd::prelude::*;

use crate::discovery::NetDiscovery;
use crate::fragmentation::{all_filled, filled, fragment_count, fragment_data, is_fragment_of, joined_data, MessageConstructor};
use crate::packet_sender::{PacketSenderMessage, PacketSenderMessageView};
use crate::random::random_u64;
use crate::topology::NetworkTopology;
use crate::wire::{Ack, FloodRequest, FloodResponse, Fragment, NackType, NodeType, Packet, PacketType, PacketTypeView};
use crate::NodeId;

verus! {

broadcast use vstd::seq_lib::group_seq_properties;

/// Milliseconds a node waits for flood responses before rebuilding its
/// topology.
pub const MAX_WAIT_FLOOD_RESPONSE: u64 = 50;

/// A request of the simulation controller to a node.
#[derive(Debug)]
pub enum SimControllerMessage {
    /// Send this message to that peer.
    SendMessageToPeer(NodeId, crate::message::Message),
}

/// A command of the simulation controller to a server or client node.
#[derive(Debug)]
pub enum NodeCommand {
    /// Stop.
    Quit,
    /// A link to this neighbour now exists.
    AddNeighbour(NodeId),
    /// The link to this neighbour is gone.
    RemoveNeighbour(NodeId),
    /// Handle this request of the controller.
    SendMessage(SimControllerMessage),
}

/// What the caller must do after a command.
pub enum CommandOutcome {
    /// Stop the node.
    Stop,
    /// Hand this flood request to the packet sender: the neighbours changed,
    /// so a new network discovery has started.
    Discover(PacketSenderMessage),
    /// Let the node's server or client handle this request.
    Forward(SimControllerMessage),
}

/// The fragments received so far of the message that `peer_id` sends in
/// session `session_id`.
pub struct ConstructorSlot {
    pub peer_id: NodeId,
    pub session_id: u64,
    pub constructor: MessageConstructor,
}

/// What the caller must do after a decision of the node.
pub enum NodeAction {
    /// Hand this to the packet sender.
    ToPacketSender(PacketSenderMessage),
    /// The message that `peer` sent in session `session` is complete: these
    /// are its bytes.
    Deliver(NodeId, u64, Vec<u8>),
}

/// The contents of a node action.
pub enum NodeActionView {
    ToPacketSender(PacketSenderMessageView),
    Deliver(NodeId, u64, Seq<u8>),
}

impl View for NodeAction {
    type V = NodeActionView;

    open spec fn view(&self) -> NodeActionView {
        match self {
            NodeAction::ToPacketSender(m) => NodeActionView::ToPacketSender(m@),
            NodeAction::Deliver(p, s, d) => NodeActionView::Deliver(*p, *s, d@),
        }
    }
}

/// The outcome of checking the network discovery.
pub struct DiscoveryPoll {
    /// The rebuilt topology, once the wait for responses is over.
    pub topology: Option<NetworkTopology>,
    /// How long to wait for events before checking again; `None` when no
    /// discovery is waiting.
    pub timeout: Option<u64>,
}

/// Whether some slot collects the message of `peer` in `session`.
pub open spec fn has_slot(slots: Seq<ConstructorSlot>, peer: NodeId, session: u64) -> bool {
    exists|i: int| 0 <= i < slots.len() && #[trigger] slot_matches(slots[i], peer, session)
}

/// `slot` collects the message of `peer` in `session`.
pub open spec fn slot_matches(slot: ConstructorSlot, peer: NodeId, session: u64) -> bool {
    slot.peer_id == peer && slot.session_id == session
}

/// The slots without the one of `peer` in `session`.
pub open spec fn without_slot(slots: Seq<ConstructorSlot>, peer: NodeId, session: u64) -> Seq<ConstructorSlot>
    decreases slots.len(),
{
    if slots.len() == 0 {
        Seq::empty()
    } else {
        let rest = without_slot(slots.drop_last(), peer, session);
        if slot_matches(slots.last(), peer, session) {
            rest
        } else {
            rest.push(slots.last())
        }
    }
}

/// The slot of `peer` in `session`, if any.
pub open spec fn slot_of(slots: Seq<ConstructorSlot>, peer: NodeId, session: u64) -> Option<ConstructorSlot>
    decreases slots.len(),
{
    if slots.len() == 0 {
        None
    } else if slot_matches(slots.last(), peer, session) {
        Some(slots.last())
    } else {
        slot_of(slots.drop_last(), peer, session)
    }
}

/// The expected fragment count and the slots of the message of `peer` in
/// `session`: those of its constructor, or `total` empty slots for a new one.
pub open spec fn collected(slots: Seq<ConstructorSlot>, peer: NodeId, session: u64, total: u64) -> (u64, Seq<Option<Fragment>>) {
    match slot_of(slots, peer, session) {
        Some(s) => (s.constructor.fragments_len, s.constructor.fragments@),
        None => (total, Seq::new(total as nat, |i: int| None::<Fragment>)),
    }
}

/// The outcome of storing `fragment`, sent by `peer` in `session`: refused
/// (its index is past the expected count), the message's slot is dropped and
/// nothing is sent; stored and the message now whole, the slot is dropped,
/// the fragment is acknowledged and the message delivered; stored with slots
/// still empty, the slot is kept (last) with the fragment in it and the
/// fragment is acknowledged.
pub open spec fn fragment_handled(
    old_slots: Seq<ConstructorSlot>,
    new_slots: Seq<ConstructorSlot>,
    peer: NodeId,
    session: u64,
    fragment: Fragment,
    actions: Seq<NodeAction>,
) -> bool {
    let (len, frags) = collected(old_slots, peer, session, fragment.total_n_fragments);
    let now = frags.update(fragment.fragment_index as int, Some(fragment));
    let ack = NodeActionView::ToPacketSender(PacketSenderMessageView::Packet(
        (peer, session, PacketTypeView::Ack(Ack { fragment_index: fragment.fragment_index })),
    ));
    if fragment.fragment_index >= len {
        &&& new_slots == without_slot(old_slots, peer, session)
        &&& actions.len() == 0
    } else if all_filled(now) {
        &&& new_slots == without_slot(old_slots, peer, session)
        &&& actions.len() == 2
        &&& actions[0]@ == ack
        &&& actions[1]@ == NodeActionView::Deliver(peer, session, joined_data(filled(now), len as int))
    } else {
        &&& new_slots.len() == without_slot(old_slots, peer, session).len() + 1
        &&& new_slots.drop_last() == without_slot(old_slots, peer, session)
        &&& slot_matches(new_slots.last(), peer, session)
        &&& new_slots.last().constructor.fragments_len == len
        &&& new_slots.last().constructor.fragments@ == now
        &&& actions.len() == 1
        &&& actions[0]@ == ack
    }
}

/// The slots have distinct keys and well-formed constructors.
pub open spec fn slots_wf(slots: Seq<ConstructorSlot>) -> bool {
    &&& forall|i: int, j: int| 0 <= i < j < slots.len() ==> !slot_matches(#[trigger] slots[i], slots[j].peer_id, #[trigger] slots[j].session_id)
    &&& forall|i: int| 0 <= i < slots.len() ==> (#[trigger] slots[i]).constructor.wf()
}

proof fn lemma_slot_of(slots: Seq<ConstructorSlot>, peer: NodeId, session: u64, i: int)
    requires
        slots_wf(slots),
        0 <= i < slots.len(),
        slot_matches(slots[i], peer, session),
    ensures
        slot_of(slots, peer, session) == Some(slots[i]),
    decreases slots.len(),
{
    if i < slots.len() - 1 {
        assert(!slot_matches(slots.last(), peer, session)) by {
            assert(!slot_matches(slots[i], slots[slots.len() - 1].peer_id, slots[slots.len() - 1].session_id));
        }
        assert(slots.drop_last()[i] == slots[i]);
        lemma_slot_of(slots.drop_last(), peer, session, i);
    }
}

proof fn lemma_no_slot(slots: Seq<ConstructorSlot>, peer: NodeId, session: u64)
    requires
        !has_slot(slots, peer, session),
    ensures
        slot_of(slots, peer, session) is None,
        without_slot(slots, peer, session) == slots,
    decreases slots.len(),
{
    if slots.len() > 0 {
        assert(!slot_matches(slots[slots.len() - 1], peer, session));
        assert forall|i: int| 0 <= i < slots.drop_last().len() implies !slot_matches(#[trigger] slots.drop_last()[i], peer, session) by {
            assert(slots.drop_last()[i] == slots[i]);
            assert(!slot_matches(slots[i], peer, session));
        }
        lemma_no_slot(slots.drop_last(), peer, session);
        assert(slots.drop_last().push(slots.last()) =~= slots);
    }
}

proof fn lemma_without_slot_remove(slots: Seq<ConstructorSlot>, peer: NodeId, session: u64, i: int)
    requires
        slots_wf(slots),
        0 <= i < slots.len(),
        slot_matches(slots[i], peer, session),
    ensures
        without_slot(slots, peer, session) == slots.remove(i),
    decreases slots.len(),
{
    if i == slots.len() - 1 {
        assert forall|k: int| 0 <= k < slots.drop_last().len() implies !slot_matches(#[trigger] slots.drop_last()[k], peer, session) by {
            assert(slots.drop_last()[k] == slots[k]);
            assert(!slot_matches(slots[k], slots[i].peer_id, slots[i].session_id));
        }
        lemma_no_slot(slots.drop_last(), peer, session);
        assert(slots.remove(i) =~= slots.drop_last());
    } else {
        assert(!slot_matches(slots.last(), peer, session)) by {
            assert(!slot_matches(slots[i], slots[slots.len() - 1].peer_id, slots[slots.len() - 1].session_id));
        }
        let d = slots.drop_last();
        assert(d[i] == slots[i]);
        assert(slots_wf(d)) by {
            assert forall|a: int, b: int| 0 <= a < b < d.len() implies !slot_matches(#[trigger] d[a], d[b].peer_id, #[trigger] d[b].session_id) by {
                assert(d[a] == slots[a] && d[b] == slots[b]);
            }
            assert forall|a: int| 0 <= a < d.len() implies (#[trigger] d[a]).constructor.wf() by {
                assert(d[a] == slots[a]);
            }
        }
        lemma_without_slot_remove(d, peer, session, i);
        assert(d.remove(i).push(slots.last()) =~= slots.remove(i));
    }
}

/// The fragment packets of `data` for `peer` in session `session`.
pub open spec fn fragment_packets(msgs: Seq<PacketSenderMessage>, peer: NodeId, session: u64, data: Seq<u8>) -> bool {
    &&& msgs.len() == fragment_count(data.len())
    &&& forall|i: int| 0 <= i < msgs.len() ==> #[trigger] fragment_packet_at(msgs[i], peer, session, data, i)
}

/// `m` asks to send fragment `i` of `data` to `peer` in session `session`.
pub open spec fn fragment_packet_at(m: PacketSenderMessage, peer: NodeId, session: u64, data: Seq<u8>, i: int) -> bool {
    m matches PacketSenderMessage::Packet((p, s, PacketType::MsgFragment(f))) && p == peer && s == session && is_fragment_of(f, data, i) && f.wf()
}

/// The state of a node: its identity and kind, the messages it is putting
/// back together, and its network discovery.
pub struct Node {
    pub id: NodeId,
    pub node_type: NodeType,
    pub fragment_constructors: Vec<ConstructorSlot>,
    pub net_d: NetDiscovery,
}

impl Node {
    /// The slots of the messages being collected are consistent.
    pub open spec fn wf(&self) -> bool {
        slots_wf(self.fragment_constructors@)
    }

    /// A node `id` of kind `node_type`, created at time `now`.
    pub fn new(id: NodeId, node_type: NodeType, now: u64) -> (n: Self)
        ensures
            n.wf(),
            n.id == id,
            n.node_type == node_type,
            n.fragment_constructors@.len() == 0,
            !n.net_d.ongoing,
            n.net_d.responses@.len() == 0,
    {
        Node { id, node_type, fragment_constructors: Vec::new(), net_d: NetDiscovery::new(now) }
    }

    /// The identifier of the node.
    pub fn id(&self) -> (r: NodeId)
        ensures
            r == self.id,
    {
        self.id
    }

    /// Starts a network discovery at time `now`: a fresh flood whose
    /// request, holding only this node in its trace, goes to the packet
    /// sender in a random session.
    pub fn trigger_network_discovery(&mut self, now: u64) -> (m: PacketSenderMessage)
        ensures
            final(self).id == old(self).id,
            final(self).node_type == old(self).node_type,
            final(self).fragment_constructors@ == old(self).fragment_constructors@,
            final(self).net_d.ongoing,
            final(self).net_d.start_time == now,
            final(self).net_d.responses@.len() == 0,
            m matches PacketSenderMessage::Packet((p, _, PacketType::FloodRequest(r))) && p == old(self).id
                && r.flood_id == final(self).net_d.last_id && r.initiator_id == old(self).id
                && r.path_trace@ == seq![(old(self).id, old(self).node_type)],
    {
        self.net_d.init(now);
        let flood_request = FloodRequest::initialize(self.net_d.get_id(), self.id, self.node_type);
        PacketSenderMessage::Packet((self.id, random_u64(), PacketType::FloodRequest(flood_request)))
    }

    /// Checks the discovery at time `now`. Once more than
    /// `MAX_WAIT_FLOOD_RESPONSE` milliseconds have passed since the flood
    /// started, the discovery ends and the topology is rebuilt from the
    /// responses; before that, the time left to wait is returned.
    pub fn poll_discovery(&mut self, now: u64) -> (r: DiscoveryPoll)
        ensures
            final(self).id == old(self).id,
            final(self).node_type == old(self).node_type,
            final(self).fragment_constructors@ == old(self).fragment_constructors@,
            final(self).net_d.last_id == old(self).net_d.last_id,
            final(self).net_d.start_time == old(self).net_d.start_time,
            ({
                let elapsed = if now >= old(self).net_d.start_time { now - old(self).net_d.start_time } else { 0int };
                if !old(self).net_d.ongoing {
                    &&& r.topology is None
                    &&& r.timeout is None
                    &&& final(self).net_d.responses@ == old(self).net_d.responses@
                    &&& !final(self).net_d.ongoing
                } else if elapsed > MAX_WAIT_FLOOD_RESPONSE {
                    &&& r.timeout is None
                    &&& !final(self).net_d.ongoing
                    &&& final(self).net_d.responses@.len() == 0
                    &&& r.topology matches Some(t) && t@ == crate::discovery::adjacency_from_traces(
                        crate::discovery::traces_of(old(self).net_d.responses@),
                        old(self).net_d.responses@.len() as int,
                    )
                } else {
                    &&& r.topology is None
                    &&& r.timeout == Some((MAX_WAIT_FLOOD_RESPONSE - elapsed) as u64)
                    &&& final(self).net_d.ongoing
                    &&& final(self).net_d.responses@ == old(self).net_d.responses@
                }
            }),
    {
        let mut timeout: Option<u64> = None;
        let mut topology: Option<NetworkTopology> = None;
        if self.net_d.get_ongoing() {
            let elapsed = self.net_d.get_elapsed(now);
            if elapsed > MAX_WAIT_FLOOD_RESPONSE {
                self.net_d.set_ongoing(false);
                topology = Some(self.net_d.parse_network());
            } else {
                timeout = Some(MAX_WAIT_FLOOD_RESPONSE - elapsed);
            }
        }
        DiscoveryPoll { topology, timeout }
    }

    /// Decides what a command of the controller leads to at time `now`: a
    /// change of neighbours starts a network discovery, a request is handed
    /// to the node's server or client, and quitting stops the node.
    pub fn handle_command(&mut self, command: NodeCommand, now: u64) -> (r: CommandOutcome)
        ensures
            final(self).id == old(self).id,
            final(self).node_type == old(self).node_type,
            final(self).fragment_constructors@ == old(self).fragment_constructors@,
            match command {
                NodeCommand::Quit => r is Stop && *final(self) == *old(self),
                NodeCommand::SendMessage(m) => r == CommandOutcome::Forward(m) && *final(self) == *old(self),
                NodeCommand::AddNeighbour(_) | NodeCommand::RemoveNeighbour(_) => {
                    &&& final(self).net_d.ongoing
                    &&& final(self).net_d.start_time == now
                    &&& final(self).net_d.responses@.len() == 0
                    &&& r matches CommandOutcome::Discover(PacketSenderMessage::Packet((p, _, PacketType::FloodRequest(req))))
                    &&& p == old(self).id
                    &&& req.flood_id == final(self).net_d.last_id
                    &&& req.initiator_id == old(self).id
                    &&& req.path_trace@ == seq![(old(self).id, old(self).node_type)]
                },
            },
    {
        match command {
            NodeCommand::Quit => CommandOutcome::Stop,
            NodeCommand::AddNeighbour(_) | NodeCommand::RemoveNeighbour(_) => {
                CommandOutcome::Discover(self.trigger_network_discovery(now))
            },
            NodeCommand::SendMessage(m) => CommandOutcome::Forward(m),
        }
    }

    /// Answers a flood request: this node joins the trace, and the response
    /// goes to the packet sender, in the session of the request.
    pub fn handle_flood_request(&self, flood_request: FloodRequest, session_id: u64) -> (m: PacketSenderMessage)
        ensures
            m matches PacketSenderMessage::Packet((p, s, PacketType::FloodResponse(r))) && p == self.id && s == session_id
                && r.flood_id == flood_request.flood_id
                && r.path_trace@ == flood_request.path_trace@.push((self.id, self.node_type)),
    {
        let mut path_trace = flood_request.path_trace;
        path_trace.push((self.id, self.node_type));
        let last = path_trace[path_trace.len() - 1].0;
        let flood_response = FloodResponse { flood_id: flood_request.flood_id, path_trace };
        PacketSenderMessage::Packet((last, session_id, PacketType::FloodResponse(flood_response)))
    }

    /// Stores a fragment that `peer_id` sent in `session_id`, in the slot of
    /// its message (made on first use, sized by the fragment's total). A
    /// stored fragment is acknowledged to the peer; once its message is whole
    /// the message is delivered and its slot dropped, and until then the slot
    /// is kept. A refused fragment leads to nothing, and its message's slot
    /// is dropped.
    pub fn handle_fragment(&mut self, peer_id: NodeId, session_id: u64, fragment: Fragment) -> (actions: Vec<NodeAction>)
        requires
            old(self).wf(),
            fragment.wf(),
            fragment.total_n_fragments <= usize::MAX,
        ensures
            final(self).wf(),
            final(self).id == old(self).id,
            final(self).node_type == old(self).node_type,
            final(self).net_d == old(self).net_d,
            fragment_handled(old(self).fragment_constructors@, final(self).fragment_constructors@, peer_id, session_id, fragment, actions@),
    {
        let ghost slots = self.fragment_constructors@;
        let fragment_index = fragment.fragment_index;
        let mut i: usize = 0;
        let mut found = false;
        while !found && i < self.fragment_constructors.len()
            invariant
                i <= slots.len(),
                slots == self.fragment_constructors@,
                forall|k: int| 0 <= k < i ==> !slot_matches(#[trigger] slots[k], peer_id, session_id),
                found ==> i < slots.len() && slot_matches(slots[i as int], peer_id, session_id),
            decreases slots.len() - i + if found { 0int } else { 1 },
        {
            if self.fragment_constructors[i].peer_id == peer_id && self.fragment_constructors[i].session_id == session_id {
                found = true;
            } else {
                i = i + 1;
            }
        }
        let mut slot = if found {
            proof {
                lemma_slot_of(slots, peer_id, session_id, i as int);
                lemma_without_slot_remove(slots, peer_id, session_id, i as int);
            }
            self.fragment_constructors.remove(i)
        } else {
            proof {
                lemma_no_slot(slots, peer_id, session_id);
            }
            let c = MessageConstructor::new(fragment.total_n_fragments);
            proof {
                let (len, frags) = collected(slots, peer_id, session_id, fragment.total_n_fragments);
                assert(c.fragments@ =~= frags);
            }
            ConstructorSlot { peer_id, session_id, constructor: c }
        };
        proof {
            assert(slots_wf(self.fragment_constructors@)) by {
                let s = self.fragment_constructors@;
                if found {
                    assert forall|a: int, b: int| 0 <= a < b < s.len() implies !slot_matches(#[trigger] s[a], s[b].peer_id, #[trigger] s[b].session_id) by {
                        let a0 = if a < i { a } else { a + 1 };
                        let b0 = if b < i { b } else { b + 1 };
                        assert(s[a] == slots[a0] && s[b] == slots[b0]);
                    }
                    assert forall|a: int| 0 <= a < s.len() implies (#[trigger] s[a]).constructor.wf() by {
                        let a0 = if a < i { a } else { a + 1 };
                        assert(s[a] == slots[a0]);
                    }
                }
            }
        }
        let ghost rest = self.fragment_constructors@;
        assert(rest == without_slot(slots, peer_id, session_id));
        assert forall|k: int| 0 <= k < rest.len() implies !slot_matches(#[trigger] rest[k], peer_id, session_id) by {
            if found {
                let k0 = if k < i { k } else { k + 1 };
                assert(rest[k] == slots[k0]);
                if k0 < i {
                    assert(!slot_matches(slots[k0], slots[i as int].peer_id, slots[i as int].session_id));
                } else {
                    assert(!slot_matches(slots[i as int], slots[k0].peer_id, slots[k0].session_id));
                }
            } else {
                assert(rest[k] == slots[k]);
            }
        }
        let result = slot.constructor.add_packet(fragment);
        let mut actions: Vec<NodeAction> = Vec::new();
        match result {
            Ok(optional_buffer) => {
                actions.push(NodeAction::ToPacketSender(PacketSenderMessage::Packet(
                    (peer_id, session_id, PacketType::Ack(Ack { fragment_index })),
                )));
                match optional_buffer {
                    Some(buffer) => {
                        actions.push(NodeAction::Deliver(peer_id, session_id, buffer));
                    },
                    None => {
                        self.fragment_constructors.push(slot);
                        proof {
                            let s2 = self.fragment_constructors@;
                            assert(s2.drop_last() =~= rest);
                            assert forall|a: int, b: int| 0 <= a < b < s2.len() implies !slot_matches(#[trigger] s2[a], s2[b].peer_id, #[trigger] s2[b].session_id) by {
                                assert(s2[a] == rest[a]);
                                if b < rest.len() {
                                    assert(s2[b] == rest[b]);
                                }
                            }
                            assert forall|a: int| 0 <= a < s2.len() implies (#[trigger] s2[a]).constructor.wf() by {
                                if a < rest.len() {
                                    assert(s2[a] == rest[a]);
                                }
                            }
                        }
                    },
                }
            },
            Err(()) => {},
        }
        actions
    }

    /// Decides what to do with a packet received at time `now`. A fragment
    /// is stored (see `handle_fragment`); an acknowledgement goes to the
    /// packet sender; a flood request is answered; a flood response of the
    /// current flood is gathered; a negative acknowledgement that reports a
    /// routing problem starts a new discovery.
    pub fn handle_packet(&mut self, packet: Packet, now: u64) -> (actions: Vec<NodeAction>)
        requires
            old(self).wf(),
            (packet.pack_type is MsgFragment || packet.pack_type is Ack) ==> packet.routing_header.hops@.len() > 0,
            packet.pack_type matches PacketType::MsgFragment(f) ==> {
                &&& f.wf()
                &&& f.total_n_fragments <= usize::MAX
            },
        ensures
            final(self).wf(),
            final(self).id == old(self).id,
            final(self).node_type == old(self).node_type,
            match packet.pack_type {
                PacketType::MsgFragment(f) => {
                    &&& final(self).net_d == old(self).net_d
                    &&& fragment_handled(old(self).fragment_constructors@, final(self).fragment_constructors@,
                        packet.routing_header.hops@[0], packet.session_id, f, actions@)
                },
                PacketType::Ack(a) => {
                    &&& final(self).fragment_constructors@ == old(self).fragment_constructors@
                    &&& final(self).net_d == old(self).net_d
                    &&& actions@.len() == 1
                    &&& actions@[0]@ == NodeActionView::ToPacketSender(PacketSenderMessageView::AckedFragment(
                        (packet.routing_header.hops@[0], packet.session_id, a.fragment_index),
                    ))
                },
                PacketType::FloodRequest(r) => {
                    &&& final(self).fragment_constructors@ == old(self).fragment_constructors@
                    &&& final(self).net_d == old(self).net_d
                    &&& actions@.len() == 1
                    &&& actions@[0] matches NodeAction::ToPacketSender(PacketSenderMessage::Packet((p, s, PacketType::FloodResponse(resp))))
                    &&& p == old(self).id && s == packet.session_id
                    &&& resp.flood_id == r.flood_id
                    &&& resp.path_trace@ == r.path_trace@.push((old(self).id, old(self).node_type))
                },
                PacketType::FloodResponse(r) => {
                    &&& final(self).fragment_constructors@ == old(self).fragment_constructors@
                    &&& actions@.len() == 0
                    &&& final(self).net_d.last_id == old(self).net_d.last_id
                    &&& final(self).net_d.ongoing == old(self).net_d.ongoing
                    &&& final(self).net_d.start_time == old(self).net_d.start_time
                    &&& final(self).net_d.responses@ == if r.flood_id == old(self).net_d.last_id {
                        old(self).net_d.responses@.push(r)
                    } else {
                        old(self).net_d.responses@
                    }
                },
                PacketType::Nack(n) => {
                    &&& final(self).fragment_constructors@ == old(self).fragment_constructors@
                    &&& if n.nack_type is Dropped {
                        &&& actions@.len() == 0
                        &&& final(self).net_d == old(self).net_d
                    } else {
                        &&& actions@.len() == 1
                        &&& final(self).net_d.ongoing
                        &&& final(self).net_d.start_time == now
                        &&& final(self).net_d.responses@.len() == 0
                        &&& actions@[0] matches NodeAction::ToPacketSender(PacketSenderMessage::Packet((p, _, PacketType::FloodRequest(req))))
                        &&& p == old(self).id && req.flood_id == final(self).net_d.last_id
                        &&& req.initiator_id == old(self).id
                        &&& req.path_trace@ == seq![(old(self).id, old(self).node_type)]
                    }
                },
            },
    {
        let mut actions: Vec<NodeAction> = Vec::new();
        let session_id = packet.session_id;
        match packet.pack_type {
            PacketType::MsgFragment(frgmt) => {
                let peer = packet.routing_header.hops[0];
                actions = self.handle_fragment(peer, session_id, frgmt);
            },
            PacketType::Ack(ack) => {
                let peer = packet.routing_header.hops[0];
                actions.push(NodeAction::ToPacketSender(PacketSenderMessage::AckedFragment((peer, session_id, ack.fragment_index))));
            },
            PacketType::FloodRequest(flood_request) => {
                actions.push(NodeAction::ToPacketSender(self.handle_flood_request(flood_request, session_id)));
            },
            PacketType::FloodResponse(flood_response) => {
                if flood_response.flood_id == self.net_d.get_id() {
                    self.net_d.add_response(flood_response);
                }
            },
            PacketType::Nack(nack) => {
                match nack.nack_type {
                    NackType::UnexpectedRecipient(_) | NackType::DestinationIsDrone | NackType::ErrorInRouting(_) => {
                        actions.push(NodeAction::ToPacketSender(self.trigger_network_discovery(now)));
                    },
                    _ => {},
                }
            },
        }
        actions
    }

    /// The packets that send `data` (a serialized message) to `peer_id`:
    /// its fragments, in order, all in session `session_id`, or in one random
    /// session when none is given.
    pub fn send_data_message(&self, peer_id: NodeId, session_id: Option<u64>, data: &Vec<u8>) -> (msgs: Vec<PacketSenderMessage>)
        ensures
            exists|s: u64| {
                &&& fragment_packets(msgs@, peer_id, s, data@)
                &&& (session_id matches Some(given) ==> s == given)
            },
    {
        let session_id = match session_id {
            Some(s) => s,
            None => random_u64(),
        };
        let fragments = fragment_data(data);
        let ghost frags = fragments@;
        let mut rest = fragments;
        let mut msgs: Vec<PacketSenderMessage> = Vec::new();
        let mut i: usize = 0;
        let count = rest.len();
        while rest.len() > 0
            invariant
                i <= frags.len(),
                frags.len() == count,
                rest@ == frags.subrange(i as int, frags.len() as int),
                msgs@.len() == i,
                frags.len() == fragment_count(data@.len()),
                forall|k: int| 0 <= k < frags.len() ==> #[trigger] is_fragment_of(frags[k], data@, k),
                forall|k: int| 0 <= k < frags.len() ==> (#[trigger] frags[k]).wf(),
                forall|k: int| 0 <= k < i ==> #[trigger] fragment_packet_at(msgs@[k], peer_id, session_id, data@, k),
            decreases rest@.len(),
        {
            let f = rest.remove(0);
            assert(f == frags[i as int]);
            msgs.push(PacketSenderMessage::Packet((peer_id, session_id, PacketType::MsgFragment(f))));
            i = i + 1;
            assert(rest@ =~= frags.subrange(i as int, frags.len() as int));
        }
        assert(fragment_packets(msgs@, peer_id, session_id, data@));
        msgs
    }
}

} // verus!
