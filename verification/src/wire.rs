//! The packets that travel between the nodes of the network.
use vstd::prelude::*;

use crate::{NodeId, FRAGMENT_DSIZE};

verus! {

/// The kind of a node, as recorded in flood traces.
#[derive(Clone, Copy, Debug, PartialEq, Eq, Structural)]
pub enum NodeType {
    Client,
    Drone,
    Server,
}

/// One piece of a fragmented message. `data` always holds `FRAGMENT_DSIZE`
/// bytes, of which the first `length` are meaningful.
#[derive(Debug)]
pub struct Fragment {
    pub fragment_index: u64,
    pub total_n_fragments: u64,
    pub length: u8,
    pub data: Vec<u8>,
}

impl Fragment {
    /// A fragment carries exactly `FRAGMENT_DSIZE` bytes of data.
    pub open spec fn wf(&self) -> bool {
        self.data@.len() == FRAGMENT_DSIZE
    }
}

/// Acknowledgement of one received fragment.
#[derive(Clone, Copy, Debug, PartialEq, Eq, Structural)]
pub struct Ack {
    pub fragment_index: u64,
}

/// The reason a packet could not be delivered.
#[derive(Clone, Copy, Debug, PartialEq, Eq, Structural)]
pub enum NackType {
    ErrorInRouting(NodeId),
    DestinationIsDrone,
    Dropped,
    UnexpectedRecipient(NodeId),
}

/// Negative acknowledgement of a packet.
#[derive(Clone, Copy, Debug, PartialEq, Eq, Structural)]
pub struct Nack {
    pub fragment_index: u64,
    pub nack_type: NackType,
}

/// A flood request, with the trace of the nodes it went through.
#[derive(Debug)]
pub struct FloodRequest {
    pub flood_id: u64,
    pub initiator_id: NodeId,
    pub path_trace: Vec<(NodeId, NodeType)>,
}

impl FloodRequest {
    /// A fresh flood request whose trace holds only its initiator.
    pub fn initialize(flood_id: u64, initiator_id: NodeId, initiator_type: NodeType) -> (r: Self)
        ensures
            r.flood_id == flood_id,
            r.initiator_id == initiator_id,
            r.path_trace@ == seq![(initiator_id, initiator_type)],
    {
        let mut path_trace = Vec::new();
        path_trace.push((initiator_id, initiator_type));
        FloodRequest { flood_id, initiator_id, path_trace }
    }
}

/// The answer to a flood request, carrying the complete trace of the flood.
#[derive(Debug)]
pub struct FloodResponse {
    pub flood_id: u64,
    pub path_trace: Vec<(NodeId, NodeType)>,
}

/// What a packet carries.
#[derive(Debug)]
pub enum PacketType {
    MsgFragment(Fragment),
    Ack(Ack),
    Nack(Nack),
    FloodRequest(FloodRequest),
    FloodResponse(FloodResponse),
}

/// The complete route of a packet and the position of the current hop in it.
#[derive(Debug)]
pub struct SourceRoutingHeader {
    pub hop_index: usize,
    pub hops: Vec<NodeId>,
}

/// A packet as sent on a link between two nodes.
#[derive(Debug)]
pub struct Packet {
    pub routing_header: SourceRoutingHeader,
    pub session_id: u64,
    pub pack_type: PacketType,
}


/// The contents of a fragment.
pub struct FragmentView {
    pub fragment_index: u64,
    pub total_n_fragments: u64,
    pub length: u8,
    pub data: Seq<u8>,
}

/// The contents of a flood request.
pub struct FloodRequestView {
    pub flood_id: u64,
    pub initiator_id: NodeId,
    pub path_trace: Seq<(NodeId, NodeType)>,
}

/// The contents of a flood response.
pub struct FloodResponseView {
    pub flood_id: u64,
    pub path_trace: Seq<(NodeId, NodeType)>,
}

/// The contents of a packet's payload.
pub enum PacketTypeView {
    MsgFragment(FragmentView),
    Ack(Ack),
    Nack(Nack),
    FloodRequest(FloodRequestView),
    FloodResponse(FloodResponseView),
}

/// The contents of a packet.
pub struct PacketView {
    pub hop_index: usize,
    pub hops: Seq<NodeId>,
    pub session_id: u64,
    pub pack_type: PacketTypeView,
}

impl View for Fragment {
    type V = FragmentView;

    open spec fn view(&self) -> FragmentView {
        FragmentView {
            fragment_index: self.fragment_index,
            total_n_fragments: self.total_n_fragments,
            length: self.length,
            data: self.data@,
        }
    }
}

impl View for FloodRequest {
    type V = FloodRequestView;

    open spec fn view(&self) -> FloodRequestView {
        FloodRequestView { flood_id: self.flood_id, initiator_id: self.initiator_id, path_trace: self.path_trace@ }
    }
}

impl View for FloodResponse {
    type V = FloodResponseView;

    open spec fn view(&self) -> FloodResponseView {
        FloodResponseView { flood_id: self.flood_id, path_trace: self.path_trace@ }
    }
}

impl View for PacketType {
    type V = PacketTypeView;

    open spec fn view(&self) -> PacketTypeView {
        match self {
            PacketType::MsgFragment(f) => PacketTypeView::MsgFragment(f@),
            PacketType::Ack(a) => PacketTypeView::Ack(*a),
            PacketType::Nack(n) => PacketTypeView::Nack(*n),
            PacketType::FloodRequest(r) => PacketTypeView::FloodRequest(r@),
            PacketType::FloodResponse(r) => PacketTypeView::FloodResponse(r@),
        }
    }
}

impl View for Packet {
    type V = PacketView;

    open spec fn view(&self) -> PacketView {
        PacketView {
            hop_index: self.routing_header.hop_index,
            hops: self.routing_header.hops@,
            session_id: self.session_id,
            pack_type: self.pack_type@,
        }
    }
}

fn copy_bytes(v: &Vec<u8>) -> (r: Vec<u8>)
    ensures
        r@ == v@,
{
    let mut r = Vec::new();
    let mut i: usize = 0;
    while i < v.len()
        invariant
            i <= v@.len(),
            r@ == v@.subrange(0, i as int),
        decreases v@.len() - i,
    {
        r.push(v[i]);
        i = i + 1;
    }
    assert(r@ =~= v@);
    r
}

fn copy_trace(v: &Vec<(NodeId, NodeType)>) -> (r: Vec<(NodeId, NodeType)>)
    ensures
        r@ == v@,
{
    let mut r = Vec::new();
    let mut i: usize = 0;
    while i < v.len()
        invariant
            i <= v@.len(),
            r@ == v@.subrange(0, i as int),
        decreases v@.len() - i,
    {
        r.push(v[i]);
        i = i + 1;
    }
    assert(r@ =~= v@);
    r
}

impl Fragment {
    /// A copy with the same contents.
    pub fn duplicate(&self) -> (r: Self)
        ensures
            r@ == self@,
    {
        Fragment {
            fragment_index: self.fragment_index,
            total_n_fragments: self.total_n_fragments,
            length: self.length,
            data: copy_bytes(&self.data),
        }
    }
}

impl FloodRequest {
    /// A copy with the same contents.
    pub fn duplicate(&self) -> (r: Self)
        ensures
            r@ == self@,
    {
        FloodRequest { flood_id: self.flood_id, initiator_id: self.initiator_id, path_trace: copy_trace(&self.path_trace) }
    }
}

impl FloodResponse {
    /// A copy with the same contents.
    pub fn duplicate(&self) -> (r: Self)
        ensures
            r@ == self@,
    {
        FloodResponse { flood_id: self.flood_id, path_trace: copy_trace(&self.path_trace) }
    }
}

impl PacketType {
    /// A copy with the same contents.
    pub fn duplicate(&self) -> (r: Self)
        ensures
            r@ == self@,
    {
        match self {
            PacketType::MsgFragment(f) => PacketType::MsgFragment(f.duplicate()),
            PacketType::Ack(a) => PacketType::Ack(*a),
            PacketType::Nack(n) => PacketType::Nack(*n),
            PacketType::FloodRequest(r) => PacketType::FloodRequest(r.duplicate()),
            PacketType::FloodResponse(r) => PacketType::FloodResponse(r.duplicate()),
        }
    }
}

} // verus!
