//! The outgoing packet queues of a node: fragments wait for their
//! acknowledgement and are sent again until acknowledged or given up, flood
//! packets always go out at once, everything else goes out as soon as the
//! topology is known.
use vstd::prelude::*;

use crate::topology::{bfs_route, is_route, no_shorter_route, reachable, NetworkTopology};
use crate::wire::{Packet, PacketType, PacketTypeView, PacketView, SourceRoutingHeader};
use crate::NodeId;

verus! {

broadcast use vstd::seq_lib::group_seq_properties;

/// Milliseconds to wait before sending an unacknowledged fragment again.
pub const PACKET_RESEND_BACK_OFF_TIME: u64 = 150;

/// Sends of a fragment after which it is given up.
pub const PACKET_RESEND_MAX_RETRIES: u32 = 5;

/// Milliseconds to wait for new work while only fragments are queued.
pub const PACKET_RECV_TIMEOUT: u64 = 25;

/// Work handed to the packet sender of a node.
pub enum PacketSenderMessage {
    /// Peer, session and payload of a packet to send.
    Packet((NodeId, u64, PacketType)),
    /// Peer, session and index of a fragment the peer acknowledged.
    AckedFragment((NodeId, u64, u64)),
    Quit,
}

/// The contents of a message to the packet sender.
pub enum PacketSenderMessageView {
    Packet((NodeId, u64, PacketTypeView)),
    AckedFragment((NodeId, u64, u64)),
    Quit,
}

impl View for PacketSenderMessage {
    type V = PacketSenderMessageView;

    open spec fn view(&self) -> PacketSenderMessageView {
        match self {
            PacketSenderMessage::Packet((p, s, t)) => PacketSenderMessageView::Packet((*p, *s, t@)),
            PacketSenderMessage::AckedFragment(a) => PacketSenderMessageView::AckedFragment(*a),
            PacketSenderMessage::Quit => PacketSenderMessageView::Quit,
        }
    }
}

/// A packet waiting to be sent.
pub struct PacketQueueItem {
    pub peer_id: NodeId,
    pub session_id: u64,
    pub packet_type: PacketType,
}

/// A fragment waiting for its acknowledgement, with the time of its last
/// send (none before its first) and the number of sends so far.
pub struct AckablePacketQueueItem {
    pub common: PacketQueueItem,
    pub last_send: Option<u64>,
    pub retries: u32,
}

/// What to do with one queued packet in a round of the queues.
pub enum Dispatch {
    /// Not due yet: it stays queued.
    Held,
    /// No route leads to its peer: it is not sent.
    Unroutable,
    /// Send it to the neighbour that its route names at `hop_index`.
    ToNextHop(Packet),
    /// Send it to every neighbour.
    ToAllNeighbours(Packet),
}

/// The packets of one round, one entry per queued packet handled.
pub struct QueueRound {
    pub standard: Vec<Dispatch>,
    pub ackable: Vec<Dispatch>,
    pub flood: Vec<Dispatch>,
}

/// The contents of a dispatch decision.
pub enum DispatchView {
    Held,
    Unroutable,
    ToNextHop(PacketView),
    ToAllNeighbours(PacketView),
}

impl View for Dispatch {
    type V = DispatchView;

    open spec fn view(&self) -> DispatchView {
        match self {
            Dispatch::Held => DispatchView::Held,
            Dispatch::Unroutable => DispatchView::Unroutable,
            Dispatch::ToNextHop(p) => DispatchView::ToNextHop(p@),
            Dispatch::ToAllNeighbours(p) => DispatchView::ToAllNeighbours(p@),
        }
    }
}

/// `d` sends `packet_type` to `peer` in session `session_id` along the route
/// from `node` that breadth-first search finds in `topo` (the route that
/// `NetworkTopology::route_to_peer` returns: a simple route that no route is
/// shorter than), or gives up when no route exists.
pub open spec fn routed(
    topo: Map<NodeId, Seq<NodeId>>,
    node: NodeId,
    peer: NodeId,
    session_id: u64,
    packet_type: PacketTypeView,
    d: DispatchView,
) -> bool {
    &&& (d is Unroutable <==> !reachable(topo, node, peer))
    &&& (d is Unroutable <==> bfs_route(topo, node, peer) is None)
    &&& (d is Unroutable || d is ToNextHop)
    &&& (d matches DispatchView::ToNextHop(p) ==> {
        &&& bfs_route(topo, node, peer) == Some(p.hops)
        &&& is_route(topo, p.hops, node, peer)
        &&& p.hops.no_duplicates()
        &&& no_shorter_route(topo, p.hops, node, peer)
        &&& p.hop_index == 1
        &&& p.session_id == session_id
        &&& p.pack_type == packet_type
    })
}

/// The node ids of a flood trace, last hop first.
pub open spec fn reversed_ids(trace: Seq<(NodeId, crate::wire::NodeType)>) -> Seq<NodeId> {
    trace.map_values(|h: (NodeId, crate::wire::NodeType)| h.0).reverse()
}

/// How a queued flood packet goes out: a request to every neighbour with
/// an empty route, a response back along its trace, reversed.
pub open spec fn flood_dispatch(item: PacketQueueItem, d: DispatchView) -> bool {
    match item.packet_type@ {
        PacketTypeView::FloodRequest(r) => d == DispatchView::ToAllNeighbours(PacketView {
            hop_index: 0,
            hops: Seq::empty(),
            session_id: item.session_id,
            pack_type: PacketTypeView::FloodRequest(r),
        }),
        PacketTypeView::FloodResponse(r) => d == DispatchView::ToNextHop(PacketView {
            hop_index: 1,
            hops: reversed_ids(r.path_trace),
            session_id: item.session_id,
            pack_type: PacketTypeView::FloodResponse(r),
        }),
        _ => false,
    }
}

/// The fragments still worth sending: fewer than the maximum sends so far.
pub open spec fn live(q: Seq<AckablePacketQueueItem>) -> Seq<AckablePacketQueueItem>
    decreases q.len(),
{
    if q.len() == 0 {
        Seq::empty()
    } else {
        let rest = live(q.drop_last());
        if q.last().retries < PACKET_RESEND_MAX_RETRIES {
            rest.push(q.last())
        } else {
            rest
        }
    }
}

/// `item` is the fragment `fragment_index` of session `session_id` to `peer`.
pub open spec fn acknowledged_by(item: AckablePacketQueueItem, peer: NodeId, session_id: u64, fragment_index: u64) -> bool {
    &&& item.common.peer_id == peer
    &&& item.common.session_id == session_id
    &&& item.common.packet_type@ matches PacketTypeView::MsgFragment(f) && f.fragment_index == fragment_index
}

/// The queue without the fragments that the acknowledgement covers.
pub open spec fn without_acked(q: Seq<AckablePacketQueueItem>, peer: NodeId, session_id: u64, fragment_index: u64) -> Seq<
    AckablePacketQueueItem,
>
    decreases q.len(),
{
    if q.len() == 0 {
        Seq::empty()
    } else {
        let rest = without_acked(q.drop_last(), peer, session_id, fragment_index);
        if acknowledged_by(q.last(), peer, session_id, fragment_index) {
            rest
        } else {
            rest.push(q.last())
        }
    }
}

/// A fragment last sent at `last_send` is due at time `now`: at once when
/// it was never sent, otherwise once the back-off time has passed.
pub open spec fn resend_due(now: u64, last_send: Option<u64>) -> bool {
    match last_send {
        None => true,
        Some(t) => now >= t && now - t >= PACKET_RESEND_BACK_OFF_TIME,
    }
}

/// The outgoing queues of a node.
pub struct PacketSender {
    pub node_id: NodeId,
    pub packet_send_queue: Vec<PacketQueueItem>,
    pub ackable_packet_send_queue: Vec<AckablePacketQueueItem>,
    pub flood_packets_queue: Vec<PacketQueueItem>,
}

impl PacketSender {
    /// Each queue holds its own kind of packet: fragments wait for an
    /// acknowledgement, flood packets go to the flood queue, the rest
    /// (acknowledgements and negative ones) to the standard queue.
    pub open spec fn wf(&self) -> bool {
        &&& forall|i: int| 0 <= i < self.ackable_packet_send_queue@.len()
            ==> (#[trigger] self.ackable_packet_send_queue@[i]).common.packet_type is MsgFragment
        &&& forall|i: int| 0 <= i < self.flood_packets_queue@.len()
            ==> ((#[trigger] self.flood_packets_queue@[i]).packet_type is FloodRequest
                || self.flood_packets_queue@[i].packet_type is FloodResponse)
        &&& forall|i: int| 0 <= i < self.packet_send_queue@.len()
            ==> ((#[trigger] self.packet_send_queue@[i]).packet_type is Ack
                || self.packet_send_queue@[i].packet_type is Nack)
    }

    /// Empty queues for node `node_id`.
    pub fn new(node_id: NodeId) -> (s: Self)
        ensures
            s.wf(),
            s.node_id == node_id,
            s.packet_send_queue@.len() == 0,
            s.ackable_packet_send_queue@.len() == 0,
            s.flood_packets_queue@.len() == 0,
    {
        PacketSender {
            node_id,
            packet_send_queue: Vec::new(),
            ackable_packet_send_queue: Vec::new(),
            flood_packets_queue: Vec::new(),
        }
    }

    /// How long to wait for new work before the next round: no wait while
    /// standard packets are queued, `PACKET_RECV_TIMEOUT` otherwise.
    pub fn receive_timeout(&self) -> (r: u64)
        ensures
            r == if self.packet_send_queue@.len() == 0 { PACKET_RECV_TIMEOUT } else { 0 },
    {
        let mut timeout: u64 = 0;
        if self.packet_send_queue.is_empty() && self.ackable_packet_send_queue.is_empty() {
            timeout = u64::MAX;
        }
        if self.packet_send_queue.is_empty() {
            timeout = PACKET_RECV_TIMEOUT;
        }
        timeout
    }

    /// Handles one message; returns whether the sender keeps running.
    pub fn handle_message(&mut self, message: PacketSenderMessage, now: u64) -> (keep_running: bool)
        requires
            old(self).wf(),
        ensures
            final(self).wf(),
            final(self).node_id == old(self).node_id,
            keep_running == !(message is Quit),
            message matches PacketSenderMessage::Packet((p, s, t)) ==> Self::queued(*old(self), *final(self), p, s, t, now),
            message matches PacketSenderMessage::AckedFragment((p, s, i)) ==> {
                &&& final(self).ackable_packet_send_queue@ == without_acked(old(self).ackable_packet_send_queue@, p, s, i)
                &&& final(self).packet_send_queue@ == old(self).packet_send_queue@
                &&& final(self).flood_packets_queue@ == old(self).flood_packets_queue@
            },
            message is Quit ==> *final(self) == *old(self),
    {
        match message {
            PacketSenderMessage::Packet((peer_id, session_id, packet_type)) => {
                self.handle_new_packet(peer_id, session_id, packet_type, now);
                true
            },
            PacketSenderMessage::AckedFragment((peer_id, session_id, fragment_index)) => {
                self.retain_acked_fragments(peer_id, session_id, fragment_index);
                true
            },
            PacketSenderMessage::Quit => false,
        }
    }

    /// `new` is `old` with the packet `t` for peer `p` in session `s` queued
    /// at time `now`.
    pub open spec fn queued(old: Self, new: Self, p: NodeId, s: u64, t: PacketType, now: u64) -> bool {
        &&& new.node_id == old.node_id
        &&& t is MsgFragment ==> {
            &&& new.ackable_packet_send_queue@ == old.ackable_packet_send_queue@.push(AckablePacketQueueItem {
                common: PacketQueueItem { peer_id: p, session_id: s, packet_type: t },
                last_send: None,
                retries: 0,
            })
            &&& new.packet_send_queue@ == old.packet_send_queue@
            &&& new.flood_packets_queue@ == old.flood_packets_queue@
        }
        &&& (t is FloodRequest || t is FloodResponse) ==> {
            &&& new.flood_packets_queue@ == old.flood_packets_queue@.push(
                PacketQueueItem { peer_id: p, session_id: s, packet_type: t },
            )
            &&& new.packet_send_queue@ == old.packet_send_queue@
            &&& new.ackable_packet_send_queue@ == old.ackable_packet_send_queue@
        }
        &&& (t is Ack || t is Nack) ==> {
            &&& new.packet_send_queue@ == old.packet_send_queue@.push(
                PacketQueueItem { peer_id: p, session_id: s, packet_type: t },
            )
            &&& new.flood_packets_queue@ == old.flood_packets_queue@
            &&& new.ackable_packet_send_queue@ == old.ackable_packet_send_queue@
        }
    }

    /// Queues a new packet: a fragment waits for its acknowledgement and is
    /// due at once, a flood packet goes to the flood queue, anything else to
    /// the standard queue.
    pub fn handle_new_packet(&mut self, peer_id: NodeId, session_id: u64, packet_type: PacketType, now: u64)
        requires
            old(self).wf(),
        ensures
            final(self).wf(),
            Self::queued(*old(self), *final(self), peer_id, session_id, packet_type, now),
    {
        match packet_type {
            PacketType::MsgFragment(_) => {
                self.ackable_packet_send_queue.push(AckablePacketQueueItem {
                    common: PacketQueueItem { peer_id, session_id, packet_type },
                    last_send: None,
                    retries: 0,
                });
            },
            PacketType::FloodRequest(_) | PacketType::FloodResponse(_) => {
                self.flood_packets_queue.push(PacketQueueItem { peer_id, session_id, packet_type });
            },
            _ => {
                self.packet_send_queue.push(PacketQueueItem { peer_id, session_id, packet_type });
            },
        }
    }

    /// Forgets the fragments that an acknowledgement covers, keeping the
    /// others in order.
    pub fn retain_acked_fragments(&mut self, peer_id: NodeId, session_id: u64, fragment_index: u64)
        requires
            old(self).wf(),
        ensures
            final(self).wf(),
            final(self).node_id == old(self).node_id,
            final(self).ackable_packet_send_queue@ == without_acked(old(self).ackable_packet_send_queue@, peer_id, session_id, fragment_index),
            final(self).packet_send_queue@ == old(self).packet_send_queue@,
            final(self).flood_packets_queue@ == old(self).flood_packets_queue@,
    {
        let mut items: Vec<AckablePacketQueueItem> = Vec::new();
        std::mem::swap(&mut items, &mut self.ackable_packet_send_queue);
        let ghost all = items@;
        let mut kept: Vec<AckablePacketQueueItem> = Vec::new();
        let ghost mut n: int = 0;
        while items.len() > 0
            invariant
                0 <= n <= all.len(),
                items@ == all.subrange(n, all.len() as int),
                kept@ == without_acked(all.subrange(0, n), peer_id, session_id, fragment_index),
                forall|i: int| 0 <= i < all.len() ==> (#[trigger] all[i]).common.packet_type is MsgFragment,
                forall|i: int| 0 <= i < kept@.len() ==> (#[trigger] kept@[i]).common.packet_type is MsgFragment,
                self.ackable_packet_send_queue@.len() == 0,
                self.packet_send_queue@ == old(self).packet_send_queue@,
                self.flood_packets_queue@ == old(self).flood_packets_queue@,
                self.node_id == old(self).node_id,
                old(self).wf(),
            decreases items@.len(),
        {
            let item = items.remove(0);
            assert(all.subrange(0, n + 1).drop_last() =~= all.subrange(0, n));
            assert(item == all[n]);
            let acked = item.common.peer_id == peer_id && item.common.session_id == session_id && match &item.common.packet_type {
                PacketType::MsgFragment(f) => f.fragment_index == fragment_index,
                _ => {
                    vstd::pervasive::unreached::<()>();
                    false
                },
            };
            if !acked {
                kept.push(item);
            }
            proof {
                n = n + 1;
                assert(items@ =~= all.subrange(n, all.len() as int));
            }
        }
        assert(all.subrange(0, all.len() as int) =~= all);
        self.ackable_packet_send_queue = kept;
    }

    /// One round of the queues at time `now`. Fragments sent
    /// `PACKET_RESEND_MAX_RETRIES` times are given up. While a network
    /// discovery is ongoing nothing but flood packets goes out; otherwise
    /// every standard packet is routed and leaves its queue, and every
    /// fragment due again is routed, stamped with `now` and counted, in
    /// queue order. Flood packets always go out and leave their queue.
    pub fn process_queue(&mut self, now: u64, discovery_ongoing: bool, topology: &NetworkTopology) -> (round: QueueRound)
        requires
            old(self).wf(),
        ensures
            final(self).wf(),
            final(self).node_id == old(self).node_id,
            final(self).flood_packets_queue@.len() == 0,
            round.flood@.len() == old(self).flood_packets_queue@.len(),
            forall|i: int| 0 <= i < round.flood@.len()
                ==> #[trigger] flood_dispatch(old(self).flood_packets_queue@[i], round.flood@[i]@),
            discovery_ongoing ==> {
                &&& round.standard@.len() == 0
                &&& round.ackable@.len() == 0
                &&& final(self).packet_send_queue@ == old(self).packet_send_queue@
                &&& final(self).ackable_packet_send_queue@ == live(old(self).ackable_packet_send_queue@)
            },
            !discovery_ongoing ==> {
                let kept = live(old(self).ackable_packet_send_queue@);
                let q = old(self).packet_send_queue@;
                &&& final(self).packet_send_queue@.len() == 0
                &&& round.standard@.len() == q.len()
                &&& forall|i: int| 0 <= i < q.len() ==> #[trigger] routed(
                    topology@, old(self).node_id, q[i].peer_id, q[i].session_id, q[i].packet_type@, round.standard@[i]@)
                &&& round.ackable@.len() == kept.len()
                &&& final(self).ackable_packet_send_queue@.len() == kept.len()
                &&& forall|i: int| 0 <= i < kept.len() ==> if resend_due(now, #[trigger] kept[i].last_send) {
                    &&& routed(topology@, old(self).node_id, kept[i].common.peer_id, kept[i].common.session_id,
                        kept[i].common.packet_type@, round.ackable@[i]@)
                    &&& final(self).ackable_packet_send_queue@[i] == AckablePacketQueueItem {
                        common: kept[i].common,
                        last_send: Some(now),
                        retries: (kept[i].retries + 1) as u32,
                    }
                } else {
                    &&& round.ackable@[i] is Held
                    &&& final(self).ackable_packet_send_queue@[i] == kept[i]
                }
            },
    {
        // give up the fragments sent too many times
        let mut items: Vec<AckablePacketQueueItem> = Vec::new();
        std::mem::swap(&mut items, &mut self.ackable_packet_send_queue);
        let ghost all = items@;
        let mut kept: Vec<AckablePacketQueueItem> = Vec::new();
        let ghost mut n: int = 0;
        while items.len() > 0
            invariant
                0 <= n <= all.len(),
                items@ == all.subrange(n, all.len() as int),
                kept@ == live(all.subrange(0, n)),
                forall|i: int| 0 <= i < all.len() ==> (#[trigger] all[i]).common.packet_type is MsgFragment,
                forall|i: int| 0 <= i < kept@.len() ==> (#[trigger] kept@[i]).common.packet_type is MsgFragment,
                self.ackable_packet_send_queue@.len() == 0,
                self.packet_send_queue@ == old(self).packet_send_queue@,
                self.flood_packets_queue@ == old(self).flood_packets_queue@,
                self.node_id == old(self).node_id,
                old(self).wf(),
                all == old(self).ackable_packet_send_queue@,
            decreases items@.len(),
        {
            let item = items.remove(0);
            assert(all.subrange(0, n + 1).drop_last() =~= all.subrange(0, n));
            assert(item == all[n]);
            if item.retries < PACKET_RESEND_MAX_RETRIES {
                kept.push(item);
            }
            proof {
                n = n + 1;
                assert(items@ =~= all.subrange(n, all.len() as int));
            }
        }
        assert(all.subrange(0, all.len() as int) =~= all);
        proof {
            lemma_live_retries(all);
        }
        let ghost kept_all = kept@;
        let mut round = QueueRound { standard: Vec::new(), ackable: Vec::new(), flood: Vec::new() };
        if !discovery_ongoing {
            // route every standard packet
            let mut standard: Vec<PacketQueueItem> = Vec::new();
            std::mem::swap(&mut standard, &mut self.packet_send_queue);
            let ghost q = standard@;
            let qlen = standard.len();
            let mut i: usize = 0;
            while standard.len() > 0
                invariant
                    i <= q.len(),
                    q.len() == qlen,
                    standard@ == q.subrange(i as int, q.len() as int),
                    round.standard@.len() == i,
                    round.ackable@.len() == 0,
                    round.flood@.len() == 0,
                    forall|j: int| 0 <= j < i ==> #[trigger] routed(
                        topology@, self.node_id, q[j].peer_id, q[j].session_id, q[j].packet_type@, round.standard@[j]@),
                    self.packet_send_queue@.len() == 0,
                    self.node_id == old(self).node_id,
                decreases standard@.len(),
            {
                let item = standard.remove(0);
                assert(item == q[i as int]);
                let d = self.route_packet(item.peer_id, item.session_id, item.packet_type, topology);
                round.standard.push(d);
                i = i + 1;
                assert(standard@ =~= q.subrange(i as int, q.len() as int));
            }
            // send again the fragments that are due
            let mut waiting: Vec<AckablePacketQueueItem> = Vec::new();
            std::mem::swap(&mut waiting, &mut kept);
            let klen = waiting.len();
            let ghost standard_round = round.standard@;
            let mut k: usize = 0;
            while waiting.len() > 0
                invariant
                    k <= kept_all.len(),
                    kept_all.len() == klen,
                    round.standard@ == standard_round,
                    round.flood@.len() == 0,
                    self.packet_send_queue@.len() == 0,
                    waiting@ == kept_all.subrange(k as int, kept_all.len() as int),
                    forall|j: int| 0 <= j < kept_all.len() ==> (#[trigger] kept_all[j]).retries < PACKET_RESEND_MAX_RETRIES,
                    forall|j: int| 0 <= j < kept_all.len() ==> (#[trigger] kept_all[j]).common.packet_type is MsgFragment,
                    kept@.len() == k,
                    round.ackable@.len() == k,
                    forall|j: int| 0 <= j < k ==> if resend_due(now, #[trigger] kept_all[j].last_send) {
                        &&& routed(topology@, self.node_id, kept_all[j].common.peer_id, kept_all[j].common.session_id,
                            kept_all[j].common.packet_type@, round.ackable@[j]@)
                        &&& kept@[j] == AckablePacketQueueItem {
                            common: kept_all[j].common,
                            last_send: Some(now),
                            retries: (kept_all[j].retries + 1) as u32,
                        }
                    } else {
                        &&& round.ackable@[j] is Held
                        &&& kept@[j] == kept_all[j]
                    },
                    forall|j: int| 0 <= j < kept@.len() ==> (#[trigger] kept@[j]).common.packet_type is MsgFragment,
                    self.node_id == old(self).node_id,
                decreases waiting@.len(),
            {
                let item = waiting.remove(0);
                assert(item == kept_all[k as int]);
                let due = match item.last_send {
                    None => true,
                    Some(t) => now >= t && now - t >= PACKET_RESEND_BACK_OFF_TIME,
                };
                if due {
                    let copy = item.common.packet_type.duplicate();
                    let d = self.route_packet(item.common.peer_id, item.common.session_id, copy, topology);
                    round.ackable.push(d);
                    kept.push(AckablePacketQueueItem { common: item.common, last_send: Some(now), retries: item.retries + 1 });
                } else {
                    round.ackable.push(Dispatch::Held);
                    kept.push(item);
                }
                k = k + 1;
                assert(waiting@ =~= kept_all.subrange(k as int, kept_all.len() as int));
            }
        }
        self.ackable_packet_send_queue = kept;
        // flood packets always go out
        let mut floods: Vec<PacketQueueItem> = Vec::new();
        std::mem::swap(&mut floods, &mut self.flood_packets_queue);
        let ghost fq = floods@;
        let flen = floods.len();
        let ghost standard_done = round.standard@;
        let ghost ackable_done = round.ackable@;
        let mut f: usize = 0;
        while floods.len() > 0
            invariant
                f <= fq.len(),
                fq.len() == flen,
                round.standard@ == standard_done,
                round.ackable@ == ackable_done,
                floods@ == fq.subrange(f as int, fq.len() as int),
                round.flood@.len() == f,
                forall|j: int| 0 <= j < f ==> #[trigger] flood_dispatch(fq[j], round.flood@[j]@),
                forall|j: int| 0 <= j < fq.len() ==> ((#[trigger] fq[j]).packet_type is FloodRequest || fq[j].packet_type is FloodResponse),
                self.flood_packets_queue@.len() == 0,
            decreases floods@.len(),
        {
            let item = floods.remove(0);
            assert(item == fq[f as int]);
            let session_id = item.session_id;
            match item.packet_type {
                PacketType::FloodRequest(flood_request) => {
                    round.flood.push(Dispatch::ToAllNeighbours(Packet {
                        routing_header: SourceRoutingHeader { hops: Vec::new(), hop_index: 0 },
                        session_id,
                        pack_type: PacketType::FloodRequest(flood_request),
                    }));
                },
                PacketType::FloodResponse(flood_response) => {
                    let path = reversed_trace_ids(&flood_response.path_trace);
                    round.flood.push(Dispatch::ToNextHop(Packet {
                        routing_header: SourceRoutingHeader { hops: path, hop_index: 1 },
                        session_id,
                        pack_type: PacketType::FloodResponse(flood_response),
                    }));
                },
                _ => {
                    vstd::pervasive::unreached::<()>();
                },
            }
            f = f + 1;
            assert(floods@ =~= fq.subrange(f as int, fq.len() as int));
        }
        round
    }

    /// Routes one packet to its peer through `topology`.
    fn route_packet(&self, peer_id: NodeId, session_id: u64, packet_type: PacketType, topology: &NetworkTopology) -> (d: Dispatch)
        ensures
            routed(topology@, self.node_id, peer_id, session_id, packet_type@, d@),
    {
        match topology.route_to_peer(self.node_id, peer_id) {
            Some(path) => Dispatch::ToNextHop(Packet {
                routing_header: SourceRoutingHeader { hops: path, hop_index: 1 },
                session_id,
                pack_type: packet_type,
            }),
            None => Dispatch::Unroutable,
        }
    }
}


/// Every fragment still worth sending has been sent fewer than the maximum
/// number of times.
proof fn lemma_live_retries(q: Seq<AckablePacketQueueItem>)
    ensures
        forall|i: int| 0 <= i < live(q).len() ==> (#[trigger] live(q)[i]).retries < PACKET_RESEND_MAX_RETRIES,
        forall|i: int| 0 <= i < q.len() ==> (#[trigger] q[i]).common.packet_type is MsgFragment
            ==> true,
        (forall|i: int| 0 <= i < q.len() ==> (#[trigger] q[i]).common.packet_type is MsgFragment)
            ==> forall|i: int| 0 <= i < live(q).len() ==> (#[trigger] live(q)[i]).common.packet_type is MsgFragment,
    decreases q.len(),
{
    if q.len() > 0 {
        lemma_live_retries(q.drop_last());
        if forall|i: int| 0 <= i < q.len() ==> (#[trigger] q[i]).common.packet_type is MsgFragment {
            assert forall|i: int| 0 <= i < q.drop_last().len() implies (#[trigger] q.drop_last()[i]).common.packet_type is MsgFragment by {
                assert(q.drop_last()[i] == q[i]);
            }
            assert(q[q.len() - 1].common.packet_type is MsgFragment);
        }
    }
}

/// The node ids of a flood trace, last hop first.
fn reversed_trace_ids(trace: &Vec<(NodeId, crate::wire::NodeType)>) -> (r: Vec<NodeId>)
    ensures
        r@ == reversed_ids(trace@),
{
    let mut r: Vec<NodeId> = Vec::new();
    let mut i: usize = trace.len();
    while i > 0
        invariant
            i <= trace@.len(),
            r@.len() == trace@.len() - i,
            forall|j: int| 0 <= j < r@.len() ==> #[trigger] r@[j] == trace@[trace@.len() - 1 - j].0,
        decreases i,
    {
        i = i - 1;
        r.push(trace[i].0);
    }
    assert(r@ =~= reversed_ids(trace@));
    r
}

} // verus!
