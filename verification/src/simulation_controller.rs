//! The bookkeeping of the simulation controller: which nodes exist, of what
//! kind, and which are linked. Every change yields the commands that the
//! caller must send to the nodes concerned.
use vstd::prelude::*;
use std::collections::{HashMap, HashSet};

use crate::decimal::{decimal, push_decimal};
use crate::kinds::{all_drone_types, drone_types, ClientType, DroneType, NodeKind, ServerType};
use crate::message::{Message, Request};
use crate::network_object::{Client, Drone, Server};
use crate::node::SimControllerMessage;
use crate::NodeId;

verus! {

broadcast use {vstd::std_specs::hash::group_hash_axioms, vstd::seq_lib::group_seq_properties};

/// What the controller knows of a node: its kind and its neighbours.
pub struct NodeEntry {
    pub kind: NodeKind,
    pub neighbours: Set<NodeId>,
}

/// An order for a node.
#[derive(Debug)]
pub enum NodeOrder {
    /// Start talking to this neighbour.
    AddNeighbour(NodeId),
    /// Stop talking to this neighbour.
    RemoveNeighbour(NodeId),
    /// Stop (drones).
    Crash,
    /// Stop (servers and clients).
    Quit,
    /// Do what the message says.
    SendMessage(SimControllerMessage),
    /// Start running, as a node of this kind.
    Spawn(NodeKind),
}

/// An order and the node it is for.
#[derive(Debug)]
pub struct ControllerCommand {
    pub target: NodeId,
    pub order: NodeOrder,
}

/// The nodes of the simulation, their kinds and links, and the active
/// configuration.
pub struct SimulationController {
    pub drones: HashMap<NodeId, Drone>,
    pub servers: HashMap<NodeId, Server>,
    pub clients: HashMap<NodeId, Client>,
    pub active_configuration: u8,
}

impl View for SimulationController {
    type V = Map<NodeId, NodeEntry>;

    open spec fn view(&self) -> Map<NodeId, NodeEntry> {
        Map::new(|id: NodeId| self.has_node(id), |id: NodeId| self.entry(id))
    }
}

/// Every neighbour is a node that has this node as a neighbour in turn.
pub open spec fn links_symmetric(m: Map<NodeId, NodeEntry>) -> bool {
    forall|a: NodeId, b: NodeId| #[trigger] m.contains_key(a) && #[trigger] m[a].neighbours.contains(b)
        ==> m.contains_key(b) && m[b].neighbours.contains(a)
}

/// No node is its own neighbour.
pub open spec fn no_self_links(m: Map<NodeId, NodeEntry>) -> bool {
    forall|a: NodeId| #[trigger] m.contains_key(a) ==> !m[a].neighbours.contains(a)
}

/// Links go both ways, between distinct existing nodes.
pub open spec fn links_wf(m: Map<NodeId, NodeEntry>) -> bool {
    links_symmetric(m) && no_self_links(m)
}

/// `m` with `n` among the neighbours of `id`.
pub open spec fn with_neighbour(m: Map<NodeId, NodeEntry>, id: NodeId, n: NodeId) -> Map<NodeId, NodeEntry> {
    m.insert(id, NodeEntry { kind: m[id].kind, neighbours: m[id].neighbours.insert(n) })
}

/// `m` without `n` among the neighbours of `id`.
pub open spec fn without_neighbour(m: Map<NodeId, NodeEntry>, id: NodeId, n: NodeId) -> Map<NodeId, NodeEntry> {
    m.insert(id, NodeEntry { kind: m[id].kind, neighbours: m[id].neighbours.remove(n) })
}

/// `m` without node `id`, which no node keeps as a neighbour.
pub open spec fn without_node(m: Map<NodeId, NodeEntry>, id: NodeId) -> Map<NodeId, NodeEntry> {
    Map::new(
        |k: NodeId| m.contains_key(k) && k != id,
        |k: NodeId| NodeEntry { kind: m[k].kind, neighbours: m[k].neighbours.remove(id) },
    )
}

/// The smallest id from `p` on (up to 255) that `used` lacks.
pub open spec fn first_free(used: Set<NodeId>, p: int) -> Option<NodeId>
    decreases 256 - p,
{
    if p > 255 || p < 0 {
        None
    } else if !used.contains(p as NodeId) {
        Some(p as NodeId)
    } else {
        first_free(used, p + 1)
    }
}

/// What `first_free` finds is unused, and at or after where the search began.
pub proof fn lemma_first_free(used: Set<NodeId>, p: int)
    ensures
        first_free(used, p) matches Some(x) ==> !used.contains(x) && p <= x && 0 <= p <= 255,
    decreases 256 - p,
{
    if 0 <= p <= 255 && used.contains(p as NodeId) {
        lemma_first_free(used, p + 1);
    }
}

/// A new node without neighbours keeps the links well formed.
proof fn lemma_insert_fresh(m: Map<NodeId, NodeEntry>, id: NodeId, kind: NodeKind)
    requires
        links_wf(m),
        !m.contains_key(id),
    ensures
        links_wf(m.insert(id, NodeEntry { kind, neighbours: Set::empty() })),
{
    let m2 = m.insert(id, NodeEntry { kind, neighbours: Set::empty() });
    assert forall|a: NodeId, b: NodeId| #[trigger] m2.contains_key(a) && #[trigger] m2[a].neighbours.contains(b)
        implies m2.contains_key(b) && m2[b].neighbours.contains(a) by {
        assert(a != id);
        assert(m[a].neighbours.contains(b));
        assert(m.contains_key(b) && m[b].neighbours.contains(a));
    }
}

/// The members of `s` below `k`, in increasing order.
pub open spec fn members_below(s: Set<NodeId>, k: int) -> Seq<NodeId>
    decreases k,
{
    if k <= 0 {
        Seq::empty()
    } else if s.contains((k - 1) as NodeId) {
        members_below(s, k - 1).push((k - 1) as NodeId)
    } else {
        members_below(s, k - 1)
    }
}

/// The members of `s`, in increasing order.
pub open spec fn members(s: Set<NodeId>) -> Seq<NodeId> {
    members_below(s, 256)
}

/// The same order for each of `targets`.
pub open spec fn orders_for(targets: Seq<NodeId>, order: NodeOrder) -> Seq<ControllerCommand> {
    targets.map_values(|t: NodeId| ControllerCommand { target: t, order })
}

/// The number of drones of implementation `t` among the ids of `m` below `k`.
pub open spec fn drone_count(m: Map<NodeId, NodeEntry>, t: DroneType, k: int) -> nat
    decreases k,
{
    if k <= 0 {
        0
    } else {
        drone_count(m, t, k - 1) + if m.contains_key((k - 1) as NodeId) && m[(k - 1) as NodeId].kind == NodeKind::Drone(t) {
            1nat
        } else {
            0nat
        }
    }
}

/// The number of drones of implementation `t` in `m`.
pub open spec fn drones_of(m: Map<NodeId, NodeEntry>, t: DroneType) -> nat {
    drone_count(m, t, 256)
}

/// Among the first `n` implementations of `all_drone_types`, the first of
/// those with the fewest drones in `m`.
pub open spec fn fewest_among(m: Map<NodeId, NodeEntry>, n: nat) -> DroneType
    decreases n,
{
    if n <= 1 {
        all_drone_types()[0]
    } else {
        let best = fewest_among(m, (n - 1) as nat);
        let t = all_drone_types()[n - 1];
        if drones_of(m, t) < drones_of(m, best) {
            t
        } else {
            best
        }
    }
}

/// The drone implementation given to a drone added without one: the first,
/// in the order of `all_drone_types`, of those with the fewest drones.
pub open spec fn least_used_type(m: Map<NodeId, NodeEntry>) -> DroneType {
    fewest_among(m, 11)
}

/// `t` is one of the drone implementations with the fewest drones in `m`.
pub open spec fn least_used(m: Map<NodeId, NodeEntry>, t: DroneType) -> bool {
    &&& all_drone_types().contains(t)
    &&& forall|u: DroneType| all_drone_types().contains(u) ==> drones_of(m, t) <= #[trigger] drones_of(m, u)
}

proof fn lemma_fewest_among(m: Map<NodeId, NodeEntry>, n: nat)
    requires
        1 <= n <= 11,
    ensures
        exists|i: int| 0 <= i < n && all_drone_types()[i] == fewest_among(m, n),
        forall|j: int| 0 <= j < n ==> drones_of(m, fewest_among(m, n)) <= drones_of(m, #[trigger] all_drone_types()[j]),
    decreases n,
{
    if n > 1 {
        lemma_fewest_among(m, (n - 1) as nat);
        let best = fewest_among(m, (n - 1) as nat);
        let i = choose|i: int| 0 <= i < n - 1 && all_drone_types()[i] == best;
        if drones_of(m, all_drone_types()[n - 1]) < drones_of(m, best) {
            assert(all_drone_types()[n - 1] == fewest_among(m, n));
        } else {
            assert(all_drone_types()[i] == fewest_among(m, n));
        }
    } else {
        assert(all_drone_types()[0] == fewest_among(m, n));
    }
}

/// A drone added without an implementation gets one of those with the
/// fewest drones.
pub proof fn lemma_least_used_type(m: Map<NodeId, NodeEntry>)
    ensures
        least_used(m, least_used_type(m)),
{
    lemma_fewest_among(m, 11);
    let t = least_used_type(m);
    let i = choose|i: int| 0 <= i < 11 && all_drone_types()[i] == t;
    assert(all_drone_types()[i] == t);
    assert forall|u: DroneType| all_drone_types().contains(u) implies drones_of(m, t) <= #[trigger] drones_of(m, u) by {
        let j = choose|j: int| 0 <= j < all_drone_types().len() && all_drone_types()[j] == u;
        assert(drones_of(m, t) <= drones_of(m, all_drone_types()[j]));
    }
}

/// The text "<prefix><id><suffix>".
pub open spec fn text_with_id(prefix: Seq<char>, id: NodeId, suffix: Seq<char>) -> Seq<char> {
    prefix + decimal(id as nat) + suffix
}

/// The error of adding a link from `from` to `to` in `m`, if any.
pub open spec fn add_edge_error(m: Map<NodeId, NodeEntry>, from: NodeId, to: NodeId) -> Option<Seq<char>> {
    if from == to {
        Some(text_with_id("Cannot add edge from node "@, from, " to itself!"@))
    } else if m.contains_key(from) && m.contains_key(to) {
        None
    } else if m.contains_key(from) {
        Some(text_with_id("Node with ID "@, from, " not found!"@))
    } else if m.contains_key(to) {
        Some(text_with_id("Node with ID "@, to, " not found!"@))
    } else {
        Some("Nodes with IDs "@ + decimal(from as nat) + " and "@ + decimal(to as nat) + " not found!"@)
    }
}

/// `m` with `from` and `to` linked both ways.
pub open spec fn with_link(m: Map<NodeId, NodeEntry>, from: NodeId, to: NodeId) -> Map<NodeId, NodeEntry> {
    with_neighbour(with_neighbour(m, from, to), to, from)
}

/// The error text "Node with ID <id> not found!".
pub open spec fn node_not_found(id: NodeId) -> Seq<char> {
    text_with_id("Node with ID "@, id, " not found!"@)
}

/// The error of deleting the link between `from` and `to` in `m`, if any.
pub open spec fn delete_edge_error(m: Map<NodeId, NodeEntry>, from: NodeId, to: NodeId) -> Option<Seq<char>> {
    if from == to {
        Some(text_with_id("Cannot delete edge from node "@, from, " to itself!"@))
    } else if m.contains_key(from) && m.contains_key(to) {
        None
    } else if m.contains_key(to) {
        Some(node_not_found(from))
    } else if m.contains_key(from) {
        Some(node_not_found(to))
    } else {
        Some(node_not_found(from) + "; "@ + node_not_found(to))
    }
}

/// `m` after deleting the link between `from` and `to`, at whichever of the
/// two exist.
pub open spec fn unlinked(m: Map<NodeId, NodeEntry>, from: NodeId, to: NodeId) -> Map<NodeId, NodeEntry> {
    let m1 = if m.contains_key(from) { without_neighbour(m, from, to) } else { m };
    if m1.contains_key(to) { without_neighbour(m1, to, from) } else { m1 }
}

/// The orders that deleting the link between `from` and `to` sends: each
/// of the two that exists forgets the other.
pub open spec fn unlink_orders(m: Map<NodeId, NodeEntry>, from: NodeId, to: NodeId) -> Seq<ControllerCommand> {
    let first: Seq<ControllerCommand> = if m.contains_key(from) {
        seq![ControllerCommand { target: from, order: NodeOrder::RemoveNeighbour(to) }]
    } else {
        Seq::empty()
    };
    if m.contains_key(to) {
        first.push(ControllerCommand { target: to, order: NodeOrder::RemoveNeighbour(from) })
    } else {
        first
    }
}

/// The ids of the drones of `m`.
pub open spec fn drone_ids(m: Map<NodeId, NodeEntry>) -> Set<NodeId> {
    m.dom().filter(|k: NodeId| m[k].kind is Drone)
}

/// The ids of the servers of `m`.
pub open spec fn server_ids(m: Map<NodeId, NodeEntry>) -> Set<NodeId> {
    m.dom().filter(|k: NodeId| m[k].kind is Server)
}

/// The ids of the clients of `m`.
pub open spec fn client_ids(m: Map<NodeId, NodeEntry>) -> Set<NodeId> {
    m.dom().filter(|k: NodeId| m[k].kind is Client)
}

/// The order that stops a node of kind `kind`: drones crash, the others quit.
pub open spec fn stop_order(kind: NodeKind) -> NodeOrder {
    if kind is Drone { NodeOrder::Crash } else { NodeOrder::Quit }
}

/// The orders that tearing down the network of `m` sends: every drone
/// crashes, then every server and every client quits, each group in
/// increasing order of id.
pub open spec fn teardown_orders(m: Map<NodeId, NodeEntry>) -> Seq<ControllerCommand> {
    orders_for(members(drone_ids(m)), NodeOrder::Crash)
        + orders_for(members(server_ids(m)), NodeOrder::Quit)
        + orders_for(members(client_ids(m)), NodeOrder::Quit)
}

/// `members_below` grows by `k` when `s` holds it.
pub proof fn lemma_members_step(s: Set<NodeId>, k: int)
    requires
        0 <= k < 256,
    ensures
        members_below(s, k + 1) == if s.contains(k as NodeId) {
            members_below(s, k).push(k as NodeId)
        } else {
            members_below(s, k)
        },
{
}

/// Deleting a link at the nodes that exist keeps the links well formed.
proof fn lemma_unlinked(m: Map<NodeId, NodeEntry>, from: NodeId, to: NodeId)
    requires
        links_wf(m),
        from != to,
    ensures
        links_wf(unlinked(m, from, to)),
        unlinked(m, from, to).dom() == m.dom(),
        forall|k: NodeId| #[trigger] unlinked(m, from, to).contains_key(k) ==> unlinked(m, from, to)[k].kind == m[k].kind,
{
    let r = unlinked(m, from, to);
    assert(r.dom() =~= m.dom());
    assert forall|a: NodeId, b: NodeId| #[trigger] r.contains_key(a) && #[trigger] r[a].neighbours.contains(b)
        implies r.contains_key(b) && r[b].neighbours.contains(a) by {
        assert(m[a].neighbours.contains(b));
        assert(m[b].neighbours.contains(a));
    }
    assert forall|a: NodeId| #[trigger] r.contains_key(a) implies !r[a].neighbours.contains(a) by {
        assert(!m[a].neighbours.contains(a));
    }
}

/// `m` without node `id`, where the nodes below `k` no longer keep `id` as
/// a neighbour.
pub open spec fn partly_forgotten(m: Map<NodeId, NodeEntry>, id: NodeId, k: int) -> Map<NodeId, NodeEntry> {
    Map::new(
        |x: NodeId| m.contains_key(x) && x != id,
        |x: NodeId| NodeEntry {
            kind: m[x].kind,
            neighbours: if x < k { m[x].neighbours.remove(id) } else { m[x].neighbours },
        },
    )
}

/// Removing a node and every link to it keeps the links well formed.
proof fn lemma_without_node(m: Map<NodeId, NodeEntry>, id: NodeId)
    requires
        links_wf(m),
    ensures
        links_wf(without_node(m, id)),
{
    let r = without_node(m, id);
    assert forall|a: NodeId, b: NodeId| #[trigger] r.contains_key(a) && #[trigger] r[a].neighbours.contains(b)
        implies r.contains_key(b) && r[b].neighbours.contains(a) by {
        assert(m[a].neighbours.contains(b));
        assert(m[b].neighbours.contains(a));
    }
    assert forall|a: NodeId| #[trigger] r.contains_key(a) implies !r[a].neighbours.contains(a) by {
        assert(!m[a].neighbours.contains(a));
    }
}

/// Deleting a link just added between two distinct existing nodes that
/// were not linked gives the network back as it was.
pub proof fn lemma_delete_edge_undoes_add_edge(m: Map<NodeId, NodeEntry>, from: NodeId, to: NodeId)
    requires
        links_wf(m),
        add_edge_error(m, from, to) is None,
        !m[from].neighbours.contains(to),
    ensures
        delete_edge_error(with_link(m, from, to), from, to) is None,
        unlinked(with_link(m, from, to), from, to) == m,
{
    let r = unlinked(with_link(m, from, to), from, to);
    assert(!m[to].neighbours.contains(from));
    assert(r[from].neighbours =~= m[from].neighbours);
    assert(r[to].neighbours =~= m[to].neighbours);
    assert(r =~= m);
}

/// Deleting a node just added, under an unused id and without links, gives
/// the network back as it was.
pub proof fn lemma_delete_node_undoes_add(m: Map<NodeId, NodeEntry>, id: NodeId, kind: NodeKind)
    requires
        links_wf(m),
        !m.contains_key(id),
    ensures
        without_node(m.insert(id, NodeEntry { kind, neighbours: Set::empty() }), id) == m,
{
    let m2 = m.insert(id, NodeEntry { kind, neighbours: Set::empty() });
    let r = without_node(m2, id);
    assert forall|k: NodeId| #[trigger] m.contains_key(k) implies r[k] == m[k] by {
        assert(!m[k].neighbours.contains(id));
        assert(m[k].neighbours.remove(id) =~= m[k].neighbours);
    }
    assert(r =~= m);
}

pub(crate) fn id_text(prefix: &str, id: NodeId, suffix: &str) -> (s: String)
    ensures
        s@ == text_with_id(prefix@, id, suffix@),
{
    let mut s = String::from_str(prefix);
    push_decimal(&mut s, id as u64);
    s.append(suffix);
    s
}

impl SimulationController {
    /// `id` is a drone, a server or a client.
    pub open spec fn has_node(&self, id: NodeId) -> bool {
        self.drones@.contains_key(id) || self.servers@.contains_key(id) || self.clients@.contains_key(id)
    }

    /// The kind and neighbours of node `id`.
    pub open spec fn entry(&self, id: NodeId) -> NodeEntry {
        if self.drones@.contains_key(id) {
            NodeEntry { kind: NodeKind::Drone(self.drones@[id].group), neighbours: self.drones@[id].neighbours@ }
        } else if self.servers@.contains_key(id) {
            NodeEntry { kind: NodeKind::Server(self.servers@[id].server_type), neighbours: self.servers@[id].neighbours@ }
        } else {
            NodeEntry { kind: NodeKind::Client(self.clients@[id].client_type), neighbours: self.clients@[id].neighbours@ }
        }
    }

    /// No id is used twice.
    pub open spec fn disjoint(&self) -> bool {
        &&& self.drones@.dom().disjoint(self.servers@.dom())
        &&& self.drones@.dom().disjoint(self.clients@.dom())
        &&& self.servers@.dom().disjoint(self.clients@.dom())
    }

    /// Ids are used once and links go both ways between existing nodes.
    pub open spec fn wf(&self) -> bool {
        &&& self.disjoint()
        &&& links_wf(self@)
    }

    /// No node yet; `config_id` is the active configuration.
    pub fn new(config_id: u8) -> (c: Self)
        ensures
            c.wf(),
            c@ == Map::<NodeId, NodeEntry>::empty(),
            c.active_configuration == config_id,
    {
        let c = SimulationController {
            drones: HashMap::new(),
            servers: HashMap::new(),
            clients: HashMap::new(),
            active_configuration: config_id,
        };
        assert(c@ =~= Map::<NodeId, NodeEntry>::empty());
        c
    }

    /// Whether `id` is a node.
    pub fn contains_node(&self, id: NodeId) -> (r: bool)
        ensures
            r == self@.contains_key(id),
    {
        self.drones.contains_key(&id) || self.servers.contains_key(&id) || self.clients.contains_key(&id)
    }

    /// Adds `n` to the neighbours of existing node `id`.
    fn link(&mut self, id: NodeId, n: NodeId)
        requires
            old(self).disjoint(),
            old(self)@.contains_key(id),
        ensures
            final(self).disjoint(),
            final(self)@ == with_neighbour(old(self)@, id, n),
            final(self).active_configuration == old(self).active_configuration,
    {
        if self.drones.contains_key(&id) {
            let mut d = self.drones.remove(&id).unwrap();
            d.add_neighbour(n);
            self.drones.insert(id, d);
        } else if self.servers.contains_key(&id) {
            let mut s = self.servers.remove(&id).unwrap();
            s.add_neighbour(n);
            self.servers.insert(id, s);
        } else {
            let mut c = self.clients.remove(&id).unwrap();
            c.add_neighbour(n);
            self.clients.insert(id, c);
        }
        assert(self.drones@.dom() =~= old(self).drones@.dom());
        assert(self.servers@.dom() =~= old(self).servers@.dom());
        assert(self.clients@.dom() =~= old(self).clients@.dom());
        assert(self@ =~= with_neighbour(old(self)@, id, n));
    }

    /// Removes `n` from the neighbours of existing node `id`.
    fn unlink(&mut self, id: NodeId, n: NodeId)
        requires
            old(self).disjoint(),
            old(self)@.contains_key(id),
        ensures
            final(self).disjoint(),
            final(self)@ == without_neighbour(old(self)@, id, n),
            final(self).active_configuration == old(self).active_configuration,
    {
        if self.drones.contains_key(&id) {
            let mut d = self.drones.remove(&id).unwrap();
            d.remove_neighbour(n);
            self.drones.insert(id, d);
        } else if self.servers.contains_key(&id) {
            let mut s = self.servers.remove(&id).unwrap();
            s.remove_neighbour(n);
            self.servers.insert(id, s);
        } else {
            let mut c = self.clients.remove(&id).unwrap();
            c.remove_neighbour(n);
            self.clients.insert(id, c);
        }
        assert(self.drones@.dom() =~= old(self).drones@.dom());
        assert(self.servers@.dom() =~= old(self).servers@.dom());
        assert(self.clients@.dom() =~= old(self).clients@.dom());
        assert(self@ =~= without_neighbour(old(self)@, id, n));
    }

    /// The smallest unused id from `preference` on (from 0 without one), if
    /// there is one.
    pub fn first_free_id(&self, preference: Option<NodeId>) -> (r: Option<NodeId>)
        ensures
            r == first_free(self@.dom(), preference.unwrap_or(0) as int),
    {
        let start: u16 = match preference {
            Some(p) => p as u16,
            None => 0,
        };
        let mut k: u16 = start;
        while k < 256
            invariant
                start <= k <= 256,
                start == preference.unwrap_or(0),
                first_free(self@.dom(), k as int) == first_free(self@.dom(), start as int),
            decreases 256 - k,
        {
            if !self.contains_node(k as u8) {
                return Some(k as u8);
            }
            assert(first_free(self@.dom(), k as int) == first_free(self@.dom(), k as int + 1));
            k = k + 1;
        }
        None
    }

    /// The smallest unused id from `preference` on (from 0 without one).
    pub fn get_id(&self, preference: Option<NodeId>) -> (id: NodeId)
        requires
            first_free(self@.dom(), preference.unwrap_or(0) as int) is Some,
        ensures
            Some(id) == first_free(self@.dom(), preference.unwrap_or(0) as int),
    {
        let mut id: NodeId = match preference {
            Some(p) => p,
            None => 0,
        };
        while self.drones.contains_key(&id) || self.servers.contains_key(&id) || self.clients.contains_key(&id)
            invariant
                first_free(self@.dom(), id as int) == first_free(self@.dom(), preference.unwrap_or(0) as int),
                first_free(self@.dom(), id as int) is Some,
            decreases 255 - id,
        {
            assert(self@.dom().contains(id));
            assert(first_free(self@.dom(), id as int) == first_free(self@.dom(), id as int + 1));
            proof {
                lemma_first_free(self@.dom(), id as int + 1);
            }
            id = id + 1;
        }
        id
    }

    /// The drone implementation to use: the one asked for, or else the first,
    /// in the order of `all_drone_types`, of those with the fewest drones.
    pub fn choose_drone_type(&self, group: Option<DroneType>) -> (t: DroneType)
        ensures
            group matches Some(g) ==> t == g,
            group is None ==> t == least_used_type(self@),
    {
        match group {
            Some(g) => g,
            None => {
                let types = drone_types();
                let mut best = types[0];
                let mut best_count = self.count_drones(best);
                let mut i: usize = 1;
                while i < types.len()
                    invariant
                        types@ == all_drone_types(),
                        1 <= i <= types@.len(),
                        best == fewest_among(self@, i as nat),
                        best_count == drones_of(self@, best),
                    decreases types@.len() - i,
                {
                    let c = self.count_drones(types[i]);
                    if c < best_count {
                        best = types[i];
                        best_count = c;
                    }
                    i = i + 1;
                }
                best
            },
        }
    }

    /// The number of drones of implementation `t`.
    fn count_drones(&self, t: DroneType) -> (n: u64)
        ensures
            n == drones_of(self@, t),
    {
        let mut n: u64 = 0;
        let mut k: u16 = 0;
        while k < 256
            invariant
                k <= 256,
                n == drone_count(self@, t, k as int),
                n <= k,
            decreases 256 - k,
        {
            match self.drones.get(&(k as u8)) {
                Some(d) => {
                    if d.group == t {
                        n = n + 1;
                    }
                },
                None => {},
            }
            k = k + 1;
        }
        n
    }

    /// Adds a drone under the smallest unused id from `id` on, of
    /// implementation `group` or else of a least used one. Returns its id
    /// and implementation.
    pub fn add_drone(&mut self, id: Option<NodeId>, group: Option<DroneType>) -> (r: (NodeId, DroneType))
        requires
            old(self).wf(),
            first_free(old(self)@.dom(), id.unwrap_or(0) as int) is Some,
        ensures
            final(self).wf(),
            Some(r.0) == first_free(old(self)@.dom(), id.unwrap_or(0) as int),
            group matches Some(g) ==> r.1 == g,
            group is None ==> r.1 == least_used_type(old(self)@),
            final(self)@ == old(self)@.insert(r.0, NodeEntry { kind: NodeKind::Drone(r.1), neighbours: Set::empty() }),
            final(self).active_configuration == old(self).active_configuration,
    {
        let new_id = self.get_id(id);
        proof {
            lemma_first_free(self@.dom(), id.unwrap_or(0) as int);
        }
        let t = self.choose_drone_type(group);
        self.drones.insert(new_id, Drone::new(t));
        assert(self@ =~= old(self)@.insert(new_id, NodeEntry { kind: NodeKind::Drone(t), neighbours: Set::empty() }));
        proof {
            lemma_insert_fresh(old(self)@, new_id, NodeKind::Drone(t));
        }
        (new_id, t)
    }

    /// Adds a server of kind `server_type` under the smallest unused id from
    /// `id` on. Returns its id.
    pub fn add_server(&mut self, id: Option<NodeId>, server_type: ServerType) -> (r: NodeId)
        requires
            old(self).wf(),
            first_free(old(self)@.dom(), id.unwrap_or(0) as int) is Some,
        ensures
            final(self).wf(),
            Some(r) == first_free(old(self)@.dom(), id.unwrap_or(0) as int),
            final(self)@ == old(self)@.insert(r, NodeEntry { kind: NodeKind::Server(server_type), neighbours: Set::empty() }),
            final(self).active_configuration == old(self).active_configuration,
    {
        let new_id = self.get_id(id);
        proof {
            lemma_first_free(self@.dom(), id.unwrap_or(0) as int);
        }
        self.servers.insert(new_id, Server::new(server_type));
        assert(self@ =~= old(self)@.insert(new_id, NodeEntry { kind: NodeKind::Server(server_type), neighbours: Set::empty() }));
        proof {
            lemma_insert_fresh(old(self)@, new_id, NodeKind::Server(server_type));
        }
        new_id
    }

    /// Adds a client of kind `client_type` under the smallest unused id from
    /// `id` on. Returns its id.
    pub fn add_client(&mut self, id: Option<NodeId>, client_type: ClientType) -> (r: NodeId)
        requires
            old(self).wf(),
            first_free(old(self)@.dom(), id.unwrap_or(0) as int) is Some,
        ensures
            final(self).wf(),
            Some(r) == first_free(old(self)@.dom(), id.unwrap_or(0) as int),
            final(self)@ == old(self)@.insert(r, NodeEntry { kind: NodeKind::Client(client_type), neighbours: Set::empty() }),
            final(self).active_configuration == old(self).active_configuration,
    {
        let new_id = self.get_id(id);
        proof {
            lemma_first_free(self@.dom(), id.unwrap_or(0) as int);
        }
        self.clients.insert(new_id, Client::new(client_type));
        assert(self@ =~= old(self)@.insert(new_id, NodeEntry { kind: NodeKind::Client(client_type), neighbours: Set::empty() }));
        proof {
            lemma_insert_fresh(old(self)@, new_id, NodeKind::Client(client_type));
        }
        new_id
    }

    /// Links `from` and `to` both ways; each is told of the other. Fails
    /// when they are the same node or one of them does not exist.
    pub fn add_edge(&mut self, from_id: NodeId, to_id: NodeId) -> (r: Result<Vec<ControllerCommand>, String>)
        requires
            old(self).wf(),
        ensures
            final(self).wf(),
            final(self).active_configuration == old(self).active_configuration,
            match add_edge_error(old(self)@, from_id, to_id) {
                None => {
                    &&& final(self)@ == with_link(old(self)@, from_id, to_id)
                    &&& r matches Ok(cmds) && cmds@ == seq![
                        ControllerCommand { target: from_id, order: NodeOrder::AddNeighbour(to_id) },
                        ControllerCommand { target: to_id, order: NodeOrder::AddNeighbour(from_id) },
                    ]
                },
                Some(text) => final(self)@ == old(self)@ && (r matches Err(e) && e@ == text),
            },
    {
        if from_id == to_id {
            return Err(id_text("Cannot add edge from node ", from_id, " to itself!"));
        }
        let has_from = self.contains_node(from_id);
        let has_to = self.contains_node(to_id);
        if has_from && has_to {
            self.link(from_id, to_id);
            self.link(to_id, from_id);
            proof {
                let m = self@;
                assert forall|a: NodeId, b: NodeId| #[trigger] m.contains_key(a) && #[trigger] m[a].neighbours.contains(b)
                    implies m.contains_key(b) && m[b].neighbours.contains(a) by {
                    if !(a == from_id && b == to_id) && !(a == to_id && b == from_id) {
                        assert(old(self)@[a].neighbours.contains(b));
                    }
                }
                assert forall|a: NodeId| #[trigger] m.contains_key(a) implies !m[a].neighbours.contains(a) by {
                    assert(old(self)@.contains_key(a));
                }
            }
            let mut cmds = Vec::new();
            cmds.push(ControllerCommand { target: from_id, order: NodeOrder::AddNeighbour(to_id) });
            cmds.push(ControllerCommand { target: to_id, order: NodeOrder::AddNeighbour(from_id) });
            Ok(cmds)
        } else if has_from {
            Err(id_text("Node with ID ", from_id, " not found!"))
        } else if has_to {
            Err(id_text("Node with ID ", to_id, " not found!"))
        } else {
            let mut e = String::from_str("Nodes with IDs ");
            push_decimal(&mut e, from_id as u64);
            e.append(" and ");
            push_decimal(&mut e, to_id as u64);
            e.append(" not found!");
            Err(e)
        }
    }

    /// Deletes the link between `from` and `to`: each of the two that exists
    /// forgets the other and is told so. Fails when they are the same node
    /// (changing nothing) or when one of them does not exist.
    pub fn delete_edge(&mut self, from_id: NodeId, to_id: NodeId) -> (r: (Vec<ControllerCommand>, Result<(), String>))
        requires
            old(self).wf(),
        ensures
            final(self).wf(),
            final(self).active_configuration == old(self).active_configuration,
            from_id == to_id ==> final(self)@ == old(self)@ && r.0@.len() == 0,
            from_id != to_id ==> final(self)@ == unlinked(old(self)@, from_id, to_id)
                && r.0@ == unlink_orders(old(self)@, from_id, to_id),
            match delete_edge_error(old(self)@, from_id, to_id) {
                None => r.1 is Ok,
                Some(text) => r.1 matches Err(e) && e@ == text,
            },
    {
        let mut cmds: Vec<ControllerCommand> = Vec::new();
        if from_id == to_id {
            return (cmds, Err(id_text("Cannot delete edge from node ", from_id, " to itself!")));
        }
        let ghost m0 = self@;
        proof {
            lemma_unlinked(m0, from_id, to_id);
        }
        let has_from = self.contains_node(from_id);
        if has_from {
            self.unlink(from_id, to_id);
            cmds.push(ControllerCommand { target: from_id, order: NodeOrder::RemoveNeighbour(to_id) });
        }
        let has_to = self.contains_node(to_id);
        if has_to {
            self.unlink(to_id, from_id);
            cmds.push(ControllerCommand { target: to_id, order: NodeOrder::RemoveNeighbour(from_id) });
        }
        assert(cmds@ =~= unlink_orders(m0, from_id, to_id));
        if has_from && has_to {
            (cmds, Ok(()))
        } else if has_to {
            (cmds, Err(id_text("Node with ID ", from_id, " not found!")))
        } else if has_from {
            (cmds, Err(id_text("Node with ID ", to_id, " not found!")))
        } else {
            let mut e = id_text("Node with ID ", from_id, " not found!");
            e.append("; ");
            let f = id_text("Node with ID ", to_id, " not found!");
            e.append(f.as_str());
            (cmds, Err(e))
        }
    }

    /// One order for each key of `m`, in increasing order: crash when
    /// `crash`, else quit.
    fn stop_orders<V>(m: &HashMap<NodeId, V>, crash: bool) -> (cmds: Vec<ControllerCommand>)
        ensures
            cmds@ == orders_for(members(m@.dom()), if crash { NodeOrder::Crash } else { NodeOrder::Quit }),
    {
        let ghost order = if crash { NodeOrder::Crash } else { NodeOrder::Quit };
        let mut cmds: Vec<ControllerCommand> = Vec::new();
        let mut k: u16 = 0;
        while k < 256
            invariant
                k <= 256,
                order == (if crash { NodeOrder::Crash } else { NodeOrder::Quit }),
                cmds@ == orders_for(members_below(m@.dom(), k as int), order),
            decreases 256 - k,
        {
            proof {
                lemma_members_step(m@.dom(), k as int);
            }
            let id: NodeId = k as u8;
            if m.contains_key(&id) {
                let o = if crash { NodeOrder::Crash } else { NodeOrder::Quit };
                cmds.push(ControllerCommand { target: id, order: o });
                assert(cmds@ =~= orders_for(members_below(m@.dom(), k as int + 1), order));
            }
            k = k + 1;
        }
        cmds
    }

    /// The ids of the drones, servers and clients are those of the maps
    /// that hold them.
    proof fn lemma_kind_ids(&self)
        requires
            self.disjoint(),
        ensures
            drone_ids(self@) == self.drones@.dom(),
            server_ids(self@) == self.servers@.dom(),
            client_ids(self@) == self.clients@.dom(),
    {
        assert(drone_ids(self@) =~= self.drones@.dom());
        assert(server_ids(self@) =~= self.servers@.dom());
        assert(client_ids(self@) =~= self.clients@.dom());
    }

    /// Orders every drone to crash, in increasing order of id.
    pub fn crash_all(&self) -> (cmds: Vec<ControllerCommand>)
        requires
            self.wf(),
        ensures
            cmds@ == orders_for(members(drone_ids(self@)), NodeOrder::Crash),
    {
        proof {
            self.lemma_kind_ids();
        }
        Self::stop_orders(&self.drones, true)
    }

    /// Removes every node: drones crash, servers and clients quit.
    pub fn destroy_network(&mut self) -> (cmds: Vec<ControllerCommand>)
        requires
            old(self).wf(),
        ensures
            final(self).wf(),
            final(self)@ == Map::<NodeId, NodeEntry>::empty(),
            final(self).active_configuration == old(self).active_configuration,
            cmds@ == teardown_orders(old(self)@),
    {
        proof {
            self.lemma_kind_ids();
        }
        let mut cmds = Self::stop_orders(&self.drones, true);
        let mut quit_servers = Self::stop_orders(&self.servers, false);
        let mut quit_clients = Self::stop_orders(&self.clients, false);
        cmds.append(&mut quit_servers);
        cmds.append(&mut quit_clients);
        self.drones = HashMap::new();
        self.servers = HashMap::new();
        self.clients = HashMap::new();
        assert(self@ =~= Map::<NodeId, NodeEntry>::empty());
        cmds
    }

    /// Asks client `id1` to send `request` to `id2`; fails when `id1` is no
    /// client.
    pub fn send_request(&self, id1: NodeId, id2: NodeId, request: Request) -> (r: Result<ControllerCommand, String>)
        requires
            self.wf(),
        ensures
            client_ids(self@).contains(id1) ==> r == Ok::<ControllerCommand, String>(ControllerCommand {
                target: id1,
                order: NodeOrder::SendMessage(SimControllerMessage::SendMessageToPeer(id2, Message::Request(request))),
            }),
            !client_ids(self@).contains(id1) ==> (r matches Err(e) && e@ == text_with_id("Client with ID "@, id1, " not found!"@)),
    {
        proof {
            self.lemma_kind_ids();
        }
        if self.clients.contains_key(&id1) {
            Ok(ControllerCommand {
                target: id1,
                order: NodeOrder::SendMessage(SimControllerMessage::SendMessageToPeer(id2, Message::Request(request))),
            })
        } else {
            Err(id_text("Client with ID ", id1, " not found!"))
        }
    }

    /// Removes `id` from the neighbours of each of `neighbours`, in
    /// increasing order, telling each.
    fn forget_node(&mut self, id: NodeId, neighbours: &HashSet<NodeId>, Ghost(m0): Ghost<Map<NodeId, NodeEntry>>)
        -> (cmds: Vec<ControllerCommand>)
        requires
            old(self).disjoint(),
            links_wf(m0),
            m0.contains_key(id),
            old(self)@ == m0.remove(id),
            neighbours@ == m0[id].neighbours,
        ensures
            final(self).disjoint(),
            final(self)@ == without_node(m0, id),
            final(self).active_configuration == old(self).active_configuration,
            cmds@ == orders_for(members(neighbours@), NodeOrder::RemoveNeighbour(id)),
    {
        let mut cmds: Vec<ControllerCommand> = Vec::new();
        assert(self@ =~= partly_forgotten(m0, id, 0));
        let mut k: u16 = 0;
        while k < 256
            invariant
                k <= 256,
                self.disjoint(),
                links_wf(m0),
                m0.contains_key(id),
                neighbours@ == m0[id].neighbours,
                self.active_configuration == old(self).active_configuration,
                self@ == partly_forgotten(m0, id, k as int),
                cmds@ == orders_for(members_below(neighbours@, k as int), NodeOrder::RemoveNeighbour(id)),
            decreases 256 - k,
        {
            proof {
                lemma_members_step(neighbours@, k as int);
            }
            let n: NodeId = k as u8;
            let ghost before = self@;
            if neighbours.contains(&n) {
                assert(m0[n].neighbours.contains(id));
                self.unlink(n, id);
                cmds.push(ControllerCommand { target: n, order: NodeOrder::RemoveNeighbour(id) });
                assert(cmds@ =~= orders_for(members_below(neighbours@, k as int + 1), NodeOrder::RemoveNeighbour(id)));
            } else {
                proof {
                    if m0.contains_key(n) && n != id {
                        assert(!m0[n].neighbours.contains(id));
                        assert(m0[n].neighbours.remove(id) =~= m0[n].neighbours);
                    }
                }
            }
            assert(self@ =~= partly_forgotten(m0, id, k as int + 1));
            k = k + 1;
        }
        assert(self@ =~= without_node(m0, id));
        cmds
    }

    /// Removes node `id` and every link to it: its neighbours are told to
    /// forget it, in increasing order of id, then the node itself is told
    /// to stop. Fails when there is no such node.
    pub fn delete_node(&mut self, id: NodeId) -> (r: Result<Vec<ControllerCommand>, String>)
        requires
            old(self).wf(),
        ensures
            final(self).wf(),
            final(self).active_configuration == old(self).active_configuration,
            old(self)@.contains_key(id) ==> {
                &&& final(self)@ == without_node(old(self)@, id)
                &&& r matches Ok(cmds) && cmds@ == orders_for(members(old(self)@[id].neighbours), NodeOrder::RemoveNeighbour(id))
                    .push(ControllerCommand { target: id, order: stop_order(old(self)@[id].kind) })
            },
            !old(self)@.contains_key(id) ==> final(self)@ == old(self)@ && (r matches Err(e) && e@ == node_not_found(id)),
    {
        let ghost m0 = self@;
        proof {
            lemma_without_node(m0, id);
        }
        if self.drones.contains_key(&id) {
            let d = self.drones.remove(&id).unwrap();
            assert(self@ =~= m0.remove(id));
            let mut cmds = self.forget_node(id, &d.neighbours, Ghost(m0));
            cmds.push(ControllerCommand { target: id, order: NodeOrder::Crash });
            Ok(cmds)
        } else if self.servers.contains_key(&id) {
            let v = self.servers.remove(&id).unwrap();
            assert(self@ =~= m0.remove(id));
            let mut cmds = self.forget_node(id, &v.neighbours, Ghost(m0));
            cmds.push(ControllerCommand { target: id, order: NodeOrder::Quit });
            Ok(cmds)
        } else if self.clients.contains_key(&id) {
            let c = self.clients.remove(&id).unwrap();
            assert(self@ =~= m0.remove(id));
            let mut cmds = self.forget_node(id, &c.neighbours, Ghost(m0));
            cmds.push(ControllerCommand { target: id, order: NodeOrder::Quit });
            Ok(cmds)
        } else {
            Err(id_text("Node with ID ", id, " not found!"))
        }
    }

    /// The neighbours of node `id`, if there is such a node.
    pub fn neighbours_of(&self, id: NodeId) -> (r: Option<&HashSet<NodeId>>)
        ensures
            r is None <==> !self@.contains_key(id),
            r matches Some(n) ==> n@ == self@[id].neighbours,
    {
        match self.drones.get(&id) {
            Some(d) => Some(&d.neighbours),
            None => match self.servers.get(&id) {
                Some(v) => Some(&v.neighbours),
                None => match self.clients.get(&id) {
                    Some(c) => Some(&c.neighbours),
                    None => None,
                },
            },
        }
    }

    /// The kind of node `id`, if there is such a node.
    pub fn kind_of(&self, id: NodeId) -> (r: Option<NodeKind>)
        ensures
            r is None <==> !self@.contains_key(id),
            r matches Some(k) ==> k == self@[id].kind,
    {
        match self.drones.get(&id) {
            Some(d) => Some(NodeKind::Drone(d.group)),
            None => match self.servers.get(&id) {
                Some(v) => Some(NodeKind::Server(v.server_type)),
                None => match self.clients.get(&id) {
                    Some(c) => Some(NodeKind::Client(c.client_type)),
                    None => None,
                },
            },
        }
    }
}

} // verus!
