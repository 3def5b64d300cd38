//! Building the network of a configuration: its nodes, in the order the
//! configuration lists them, each under the smallest unused id from the one
//! it asks for, then its links.
use vstd::prelude::*;

use crate::config::{
    configuration_found, find_configuration, Client as ClientConfig, Config, Configurations, Drone as DroneConfig,
    Server as ServerConfig,
};
use crate::decimal::{decimal, push_decimal};
use crate::kinds::{ClientType, NodeKind, ServerType};
use crate::simulation_controller::{
    add_edge_error, first_free, least_used_type, teardown_orders, with_link, ControllerCommand, NodeEntry,
    NodeOrder, SimulationController,
};
use crate::text::same_text;
use crate::NodeId;

verus! {

/// What a configured node is to become.
pub enum PlannedNode {
    Drone,
    Server(ServerType),
    Client(ClientType),
}

/// The server kind that a configuration names.
pub open spec fn server_type_named(s: Seq<char>) -> Option<ServerType> {
    if s == "Content"@ {
        Some(ServerType::Content)
    } else if s == "Communication"@ {
        Some(ServerType::Communication)
    } else {
        None
    }
}

/// The client kind that a configuration names.
pub open spec fn client_type_named(s: Seq<char>) -> Option<ClientType> {
    if s == "ChatClient"@ {
        Some(ClientType::Chat)
    } else if s == "WebBrowser"@ {
        Some(ClientType::Web)
    } else {
        None
    }
}

/// Every server and client of `c` names a known kind.
pub open spec fn kinds_known(c: Config) -> bool {
    &&& forall|i: int| 0 <= i < c.server@.len() ==> (#[trigger] server_type_named(c.server@[i].server_type@)) is Some
    &&& forall|i: int| 0 <= i < c.client@.len() ==> (#[trigger] client_type_named(c.client@[i].client_type@)) is Some
}

/// The nodes of `c` in the order they are added: drones, servers, clients,
/// each with the id it asks for, what it becomes, and the ids it links to.
pub open spec fn planned(c: Config) -> Seq<(NodeId, PlannedNode, Seq<NodeId>)> {
    c.drone@.map_values(|d: DroneConfig| (d.id, PlannedNode::Drone, d.connected_node_ids@))
        + c.server@.map_values(|s: ServerConfig| (s.id, PlannedNode::Server(server_type_named(s.server_type@)->0), s.connected_drone_ids@))
        + c.client@.map_values(|k: ClientConfig| (k.id, PlannedNode::Client(client_type_named(k.client_type@)->0), k.connected_drone_ids@))
}

/// The kind that planned node `p` gets when added to `m`.
pub open spec fn kind_for(m: Map<NodeId, NodeEntry>, p: PlannedNode) -> NodeKind {
    match p {
        PlannedNode::Drone => NodeKind::Drone(least_used_type(m)),
        PlannedNode::Server(t) => NodeKind::Server(t),
        PlannedNode::Client(t) => NodeKind::Client(t),
    }
}

/// `m` after adding the planned nodes `ps` in order, with the orders that
/// start them; nothing when some node finds no unused id.
pub open spec fn placed(m: Map<NodeId, NodeEntry>, ps: Seq<(NodeId, PlannedNode, Seq<NodeId>)>)
    -> Option<(Map<NodeId, NodeEntry>, Seq<ControllerCommand>)>
    decreases ps.len(),
{
    if ps.len() == 0 {
        Some((m, Seq::empty()))
    } else {
        match placed(m, ps.drop_last()) {
            None => None,
            Some((m1, cmds)) => match first_free(m1.dom(), ps.last().0 as int) {
                None => None,
                Some(id) => {
                    let kind = kind_for(m1, ps.last().1);
                    Some((
                        m1.insert(id, NodeEntry { kind, neighbours: Set::empty() }),
                        cmds.push(ControllerCommand { target: id, order: NodeOrder::Spawn(kind) }),
                    ))
                },
            },
        }
    }
}

/// The links that the planned nodes `ps` ask for, in order, each from the
/// id the node asks for.
pub open spec fn config_pairs(ps: Seq<(NodeId, PlannedNode, Seq<NodeId>)>) -> Seq<(NodeId, NodeId)>
    decreases ps.len(),
{
    if ps.len() == 0 {
        Seq::empty()
    } else {
        config_pairs(ps.drop_last()) + ps.last().2.map_values(|t: NodeId| (ps.last().0, t))
    }
}

/// `es` with `p` added unless it is there already, or, when
/// `skip_reversed`, its reverse is.
pub open spec fn with_pair(es: Seq<(NodeId, NodeId)>, p: (NodeId, NodeId), skip_reversed: bool) -> Seq<(NodeId, NodeId)> {
    if es.contains(p) || (skip_reversed && es.contains((p.1, p.0))) {
        es
    } else {
        es.push(p)
    }
}

/// The pairs `ps`, each added in turn by `with_pair`.
pub open spec fn deduplicated(ps: Seq<(NodeId, NodeId)>, skip_reversed: bool) -> Seq<(NodeId, NodeId)>
    decreases ps.len(),
{
    if ps.len() == 0 {
        Seq::empty()
    } else {
        with_pair(deduplicated(ps.drop_last(), skip_reversed), ps.last(), skip_reversed)
    }
}

/// The error text for link `e` failing with `text`.
pub open spec fn edge_failure(e: (NodeId, NodeId), text: Seq<char>) -> Seq<char> {
    "Failed to add edge ("@ + decimal(e.0 as nat) + ", "@ + decimal(e.1 as nat) + "): "@ + text
}

/// `m` after adding the links `es` in order, the orders sent, and the error
/// of the first link that fails, after which no link is added.
pub open spec fn linked_all(m: Map<NodeId, NodeEntry>, es: Seq<(NodeId, NodeId)>)
    -> (Map<NodeId, NodeEntry>, Seq<ControllerCommand>, Option<Seq<char>>)
    decreases es.len(),
{
    if es.len() == 0 {
        (m, Seq::empty(), None)
    } else {
        let (m1, cmds, err) = linked_all(m, es.drop_last());
        if err is Some {
            (m1, cmds, err)
        } else {
            let e = es.last();
            match add_edge_error(m1, e.0, e.1) {
                None => (
                    with_link(m1, e.0, e.1),
                    cmds + seq![
                        ControllerCommand { target: e.0, order: NodeOrder::AddNeighbour(e.1) },
                        ControllerCommand { target: e.1, order: NodeOrder::AddNeighbour(e.0) },
                    ],
                    None,
                ),
                Some(t) => (m1, cmds, Some(edge_failure(e, t))),
            }
        }
    }
}

/// What building configuration `c` on an empty network gives: the network,
/// the orders sent, and the error, if any. Links are gathered as
/// `deduplicated` with `skip_reversed` gathers them.
pub open spec fn built(c: Config, skip_reversed: bool) -> (Map<NodeId, NodeEntry>, Seq<ControllerCommand>, Option<Seq<char>>) {
    let (m1, spawn) = placed(Map::empty(), planned(c))->0;
    let (m2, links, err) = linked_all(m1, deduplicated(config_pairs(planned(c)), skip_reversed));
    (m2, spawn + links, err)
}

/// Every node of `c` finds an unused id when added.
pub open spec fn ids_available(c: Config) -> bool {
    placed(Map::empty(), planned(c)) is Some
}

/// If all of `ps` can be placed, so can each of its prefixes.
proof fn lemma_placed_prefix(m: Map<NodeId, NodeEntry>, ps: Seq<(NodeId, PlannedNode, Seq<NodeId>)>, n: int)
    requires
        0 <= n <= ps.len(),
        placed(m, ps) is Some,
    ensures
        placed(m, ps.take(n)) is Some,
    decreases ps.len(),
{
    if n < ps.len() {
        assert(ps.drop_last().take(n) =~= ps.take(n));
        lemma_placed_prefix(m, ps.drop_last(), n);
    } else {
        assert(ps.take(n) =~= ps);
    }
}

/// `p` added in turn to `es`.
fn add_pair(es: &mut Vec<(NodeId, NodeId)>, p: (NodeId, NodeId), skip_reversed: bool)
    ensures
        final(es)@ == with_pair(old(es)@, p, skip_reversed),
{
    let mut i: usize = 0;
    while i < es.len()
        invariant
            i <= es@.len(),
            es@ == old(es)@,
            forall|j: int| 0 <= j < i ==> es@[j] != p && !(skip_reversed && es@[j] == (p.1, p.0)),
        decreases es@.len() - i,
    {
        let q = es[i];
        if (q.0 == p.0 && q.1 == p.1) || (skip_reversed && q.0 == p.1 && q.1 == p.0) {
            assert(es@[i as int] == q);
            return;
        }
        i = i + 1;
    }
    es.push(p);
}

/// The links that node `id` asks for, added in turn to `es`.
fn add_pairs(es: &mut Vec<(NodeId, NodeId)>, id: NodeId, links: &Vec<NodeId>, skip_reversed: bool, Ghost(before): Ghost<Seq<(NodeId, NodeId)>>)
    requires
        old(es)@ == deduplicated(before, skip_reversed),
    ensures
        final(es)@ == deduplicated(before + links@.map_values(|t: NodeId| (id, t)), skip_reversed),
{
    let mut j: usize = 0;
    while j < links.len()
        invariant
            j <= links@.len(),
            es@ == deduplicated(before + links@.take(j as int).map_values(|t: NodeId| (id, t)), skip_reversed),
        decreases links@.len() - j,
    {
        let ghost s0 = before + links@.take(j as int).map_values(|t: NodeId| (id, t));
        let ghost s1 = before + links@.take(j + 1).map_values(|t: NodeId| (id, t));
        assert(s1.drop_last() =~= s0);
        assert(s1.last() == (id, links@[j as int]));
        add_pair(es, (id, links[j]), skip_reversed);
        j = j + 1;
    }
    assert(links@.take(j as int) =~= links@);
}

/// The error text for link `e` failing with `text`.
fn edge_failure_text(e: (NodeId, NodeId), text: &String) -> (s: String)
    ensures
        s@ == edge_failure(e, text@),
{
    let mut s = String::from_str("Failed to add edge (");
    push_decimal(&mut s, e.0 as u64);
    s.append(", ");
    push_decimal(&mut s, e.1 as u64);
    s.append("): ");
    s.append(text.as_str());
    s
}

/// The server kind that `s` names.
fn server_type_of(s: &String) -> (t: Option<ServerType>)
    ensures
        t == server_type_named(s@),
{
    if same_text(s.as_str(), "Content") {
        Some(ServerType::Content)
    } else if same_text(s.as_str(), "Communication") {
        Some(ServerType::Communication)
    } else {
        None
    }
}

/// The client kind that `s` names.
fn client_type_of(s: &String) -> (t: Option<ClientType>)
    ensures
        t == client_type_named(s@),
{
    if same_text(s.as_str(), "ChatClient") {
        Some(ClientType::Chat)
    } else if same_text(s.as_str(), "WebBrowser") {
        Some(ClientType::Web)
    } else {
        None
    }
}

impl SimulationController {
    /// Adds the nodes of `config` to an empty network, then its links; stops
    /// at the first link that fails.
    fn build_from_config(&mut self, config: &Config, skip_reversed: bool) -> (r: (Vec<ControllerCommand>, Result<(), String>))
        requires
            old(self).wf(),
            old(self)@ == Map::<NodeId, NodeEntry>::empty(),
            kinds_known(*config),
            ids_available(*config),
        ensures
            final(self).wf(),
            final(self).active_configuration == old(self).active_configuration,
            final(self)@ == built(*config, skip_reversed).0,
            r.0@ == built(*config, skip_reversed).1,
            match built(*config, skip_reversed).2 {
                None => r.1 is Ok,
                Some(t) => r.1 matches Err(e) && e@ == t,
            },
    {
        let ghost ps = planned(*config);
        let ghost nd = config.drone@.len();
        let ghost ns = config.server@.len();
        let mut cmds: Vec<ControllerCommand> = Vec::new();
        let mut edges: Vec<(NodeId, NodeId)> = Vec::new();
        proof {
            assert(ps.take(0) =~= Seq::<(NodeId, PlannedNode, Seq<NodeId>)>::empty());
        }
        let mut i: usize = 0;
        while i < config.drone.len()
            invariant
                i <= nd,
                nd == config.drone@.len(),
                ps == planned(*config),
                placed(Map::empty(), ps) is Some,
                self.wf(),
                self.active_configuration == old(self).active_configuration,
                placed(Map::empty(), ps.take(i as int)) == Some((self@, cmds@)),
                edges@ == deduplicated(config_pairs(ps.take(i as int)), skip_reversed),
            decreases nd - i,
        {
            let d = &config.drone[i];
            proof {
                lemma_placed_prefix(Map::empty(), ps, i + 1);
                assert(ps.take(i + 1).drop_last() =~= ps.take(i as int));
                assert(ps[i as int] == (d.id, PlannedNode::Drone, d.connected_node_ids@));
            }
            let (id, t) = self.add_drone(Some(d.id), None);
            cmds.push(ControllerCommand { target: id, order: NodeOrder::Spawn(NodeKind::Drone(t)) });
            add_pairs(&mut edges, d.id, &d.connected_node_ids, skip_reversed, Ghost(config_pairs(ps.take(i as int))));
            i = i + 1;
        }
        let mut i: usize = 0;
        while i < config.server.len()
            invariant
                i <= ns,
                nd == config.drone@.len(),
                ns == config.server@.len(),
                ps == planned(*config),
                kinds_known(*config),
                placed(Map::empty(), ps) is Some,
                self.wf(),
                self.active_configuration == old(self).active_configuration,
                placed(Map::empty(), ps.take(nd + i)) == Some((self@, cmds@)),
                edges@ == deduplicated(config_pairs(ps.take(nd + i)), skip_reversed),
            decreases ns - i,
        {
            let s = &config.server[i];
            let st = match server_type_of(&s.server_type) {
                Some(st) => st,
                None => {
                    proof {
                        assert(server_type_named(config.server@[i as int].server_type@) is Some);
                    }
                    ServerType::Content
                },
            };
            proof {
                lemma_placed_prefix(Map::empty(), ps, nd + i + 1);
                assert(ps.take(nd + i + 1).drop_last() =~= ps.take(nd + i));
                assert(ps[nd + i] == (s.id, PlannedNode::Server(st), s.connected_drone_ids@));
            }
            let id = self.add_server(Some(s.id), st);
            cmds.push(ControllerCommand { target: id, order: NodeOrder::Spawn(NodeKind::Server(st)) });
            add_pairs(&mut edges, s.id, &s.connected_drone_ids, skip_reversed, Ghost(config_pairs(ps.take(nd + i))));
            i = i + 1;
        }
        let mut i: usize = 0;
        while i < config.client.len()
            invariant
                i <= config.client@.len(),
                nd == config.drone@.len(),
                ns == config.server@.len(),
                ps == planned(*config),
                kinds_known(*config),
                placed(Map::empty(), ps) is Some,
                self.wf(),
                self.active_configuration == old(self).active_configuration,
                placed(Map::empty(), ps.take(nd + ns + i)) == Some((self@, cmds@)),
                edges@ == deduplicated(config_pairs(ps.take(nd + ns + i)), skip_reversed),
            decreases config.client@.len() - i,
        {
            let k = &config.client[i];
            let ct = match client_type_of(&k.client_type) {
                Some(ct) => ct,
                None => {
                    proof {
                        assert(client_type_named(config.client@[i as int].client_type@) is Some);
                    }
                    ClientType::Chat
                },
            };
            proof {
                lemma_placed_prefix(Map::empty(), ps, nd + ns + i + 1);
                assert(ps.take(nd + ns + i + 1).drop_last() =~= ps.take(nd + ns + i));
                assert(ps[nd + ns + i] == (k.id, PlannedNode::Client(ct), k.connected_drone_ids@));
            }
            let id = self.add_client(Some(k.id), ct);
            cmds.push(ControllerCommand { target: id, order: NodeOrder::Spawn(NodeKind::Client(ct)) });
            add_pairs(&mut edges, k.id, &k.connected_drone_ids, skip_reversed, Ghost(config_pairs(ps.take(nd + ns + i))));
            i = i + 1;
        }
        proof {
            assert(ps.take(ps.len() as int) =~= ps);
        }
        let ghost m1 = self@;
        let ghost spawn = cmds@;
        let ghost es = edges@;
        assert(es == deduplicated(config_pairs(ps), skip_reversed));
        let mut j: usize = 0;
        while j < edges.len()
            invariant
                j <= edges@.len(),
                es == edges@,
                self.wf(),
                self.active_configuration == old(self).active_configuration,
                linked_all(m1, es.take(j as int)) == (self@, cmds@.skip(spawn.len() as int), None::<Seq<char>>),
                cmds@.len() >= spawn.len(),
                cmds@.take(spawn.len() as int) == spawn,
                placed(Map::empty(), planned(*config)) == Some((m1, spawn)),
                es == deduplicated(config_pairs(planned(*config)), skip_reversed),
            decreases edges@.len() - j,
        {
            let e = edges[j];
            assert(es.take(j + 1).drop_last() =~= es.take(j as int));
            assert(es.take(j + 1).last() == e);
            let ghost before = cmds@;
            match self.add_edge(e.0, e.1) {
                Ok(mut more) => {
                    let ghost added = more@;
                    cmds.append(&mut more);
                    assert(cmds@ == before + added);
                    assert(cmds@.skip(spawn.len() as int) =~= before.skip(spawn.len() as int) + added);
                    assert(cmds@.take(spawn.len() as int) =~= before.take(spawn.len() as int));
                },
                Err(t) => {
                    assert(cmds@ =~= spawn + cmds@.skip(spawn.len() as int));
                    assert(linked_all(m1, es.take(j + 1)).0 == self@);
                    assert(linked_all(m1, es.take(j + 1)).2 is Some);
                    proof {
                        lemma_linked_all_stops(m1, es, j as int + 1);
                    }
                    return (cmds, Err(edge_failure_text(e, &t)));
                },
            }
            j = j + 1;
        }
        assert(es.take(j as int) =~= es);
        assert(cmds@ =~= spawn + cmds@.skip(spawn.len() as int));
        (cmds, Ok(()))
    }

    /// Tears down the network (drones crash, servers and clients quit), then
    /// looks up the file of configuration `id` in `configurations`. The
    /// network is gone whether or not the configuration is found.
    pub fn tear_down_and_find_configuration(&mut self, configurations: &Configurations, id: u8)
        -> (r: (Vec<ControllerCommand>, Result<String, String>))
        requires
            old(self).wf(),
        ensures
            final(self).wf(),
            final(self)@ == Map::<NodeId, NodeEntry>::empty(),
            final(self).active_configuration == old(self).active_configuration,
            r.0@ == teardown_orders(old(self)@),
            configuration_found(configurations.configuration@, id, r.1),
    {
        let cmds = self.destroy_network();
        let found = find_configuration(configurations, id);
        (cmds, found)
    }

    /// Tears down the network (drones crash, servers and clients quit), then
    /// builds configuration `config_id` as `config` describes it: its nodes,
    /// in order, each under the smallest unused id from the one it asks for,
    /// then its links, a link and its reverse counted once. On success
    /// `config_id` becomes the active configuration; at the first link that
    /// fails, the error names it and the network stays as far as it got.
    pub fn spawn_network_from_config(&mut self, config_id: u8, config: &Config) -> (r: (Vec<ControllerCommand>, Result<(), String>))
        requires
            old(self).wf(),
            kinds_known(*config),
            ids_available(*config),
        ensures
            final(self).wf(),
            final(self)@ == built(*config, true).0,
            r.0@ == teardown_orders(old(self)@) + built(*config, true).1,
            match built(*config, true).2 {
                None => r.1 is Ok && final(self).active_configuration == config_id,
                Some(t) => (r.1 matches Err(e) && e@ == t) && final(self).active_configuration == old(self).active_configuration,
            },
    {
        let mut cmds = self.destroy_network();
        let (mut more, res) = self.build_from_config(config, true);
        cmds.append(&mut more);
        match res {
            Ok(()) => {
                let ghost before = *self;
                self.active_configuration = config_id;
                assert(self.drones@ == before.drones@ && self.servers@ == before.servers@ && self.clients@ == before.clients@);
                assert(self@ =~= before@);
                (cmds, Ok(()))
            },
            Err(e) => (cmds, Err(e)),
        }
    }
}

/// After the first failing link, `linked_all` adds nothing more.
proof fn lemma_linked_all_stops(m: Map<NodeId, NodeEntry>, es: Seq<(NodeId, NodeId)>, n: int)
    requires
        0 < n <= es.len(),
        linked_all(m, es.take(n)).2 is Some,
    ensures
        linked_all(m, es) == linked_all(m, es.take(n)),
    decreases es.len() - n,
{
    if n < es.len() {
        assert(es.take(n + 1).drop_last() =~= es.take(n));
        assert(linked_all(m, es.take(n + 1)) == linked_all(m, es.take(n)));
        lemma_linked_all_stops(m, es, n + 1);
    } else {
        assert(es.take(n) =~= es);
    }
}

/// A new network holding the nodes and links of `config`, a link being
/// added once for each time it is listed in one direction or the other.
/// No configuration is recorded as active (0). Fails at the first link
/// that fails, naming it.
pub fn spawn_network(config: &Config) -> (r: Result<(SimulationController, Vec<ControllerCommand>), String>)
    requires
        kinds_known(*config),
        ids_available(*config),
    ensures
        match built(*config, false).2 {
            None => r matches Ok((c, cmds)) && c.wf() && c@ == built(*config, false).0 && cmds@ == built(*config, false).1
                && c.active_configuration == 0,
            Some(t) => r matches Err(e) && e@ == t,
        },
{
    let mut c = SimulationController::new(0);
    let (cmds, res) = c.build_from_config(config, false);
    match res {
        Ok(()) => Ok((c, cmds)),
        Err(e) => Err(e),
    }
}

/// The smallest id from `p` on that `used` does not mark.
fn first_unmarked(used: &Vec<bool>, p: NodeId) -> (r: Option<NodeId>)
    requires
        used@.len() == 256,
    ensures
        r == first_free(Set::new(|k: NodeId| used@[k as int]), p as int),
{
    let ghost s = Set::new(|k: NodeId| used@[k as int]);
    let mut k: u16 = p as u16;
    while k < 256
        invariant
            p <= k <= 256,
            used@.len() == 256,
            s == Set::new(|k: NodeId| used@[k as int]),
            first_free(s, k as int) == first_free(s, p as int),
        decreases 256 - k,
    {
        if !used[k as usize] {
            assert(!s.contains(k as NodeId));
            return Some(k as u8);
        }
        assert(s.contains(k as NodeId));
        assert(first_free(s, k as int) == first_free(s, k as int + 1));
        k = k + 1;
    }
    None
}

/// Whether every server and client of `config` names a known kind and
/// every node finds an unused id when added: exactly when
/// `spawn_network_from_config` and `spawn_network` accept it.
pub fn config_fits(config: &Config) -> (r: bool)
    ensures
        r == (kinds_known(*config) && ids_available(*config)),
{
    let mut i: usize = 0;
    while i < config.server.len()
        invariant
            i <= config.server@.len(),
            forall|j: int| 0 <= j < i ==> (#[trigger] server_type_named(config.server@[j].server_type@)) is Some,
        decreases config.server@.len() - i,
    {
        if server_type_of(&config.server[i].server_type).is_none() {
            return false;
        }
        i = i + 1;
    }
    let mut i: usize = 0;
    while i < config.client.len()
        invariant
            i <= config.client@.len(),
            forall|j: int| 0 <= j < i ==> (#[trigger] client_type_named(config.client@[j].client_type@)) is Some,
        decreases config.client@.len() - i,
    {
        if client_type_of(&config.client[i].client_type).is_none() {
            return false;
        }
        i = i + 1;
    }
    let ghost ps = planned(*config);
    let mut prefs: Vec<NodeId> = Vec::new();
    let mut i: usize = 0;
    while i < config.drone.len()
        invariant
            i <= config.drone@.len(),
            prefs@.len() == i,
            forall|j: int| 0 <= j < i ==> #[trigger] prefs@[j] == ps[j].0,
            ps == planned(*config),
        decreases config.drone@.len() - i,
    {
        prefs.push(config.drone[i].id);
        i = i + 1;
    }
    let ghost nd = config.drone@.len();
    let mut i: usize = 0;
    while i < config.server.len()
        invariant
            i <= config.server@.len(),
            nd == config.drone@.len(),
            prefs@.len() == nd + i,
            forall|j: int| 0 <= j < nd + i ==> #[trigger] prefs@[j] == ps[j].0,
            ps == planned(*config),
        decreases config.server@.len() - i,
    {
        prefs.push(config.server[i].id);
        i = i + 1;
    }
    let ghost ns = config.server@.len();
    let mut i: usize = 0;
    while i < config.client.len()
        invariant
            i <= config.client@.len(),
            nd == config.drone@.len(),
            ns == config.server@.len(),
            prefs@.len() == nd + ns + i,
            forall|j: int| 0 <= j < nd + ns + i ==> #[trigger] prefs@[j] == ps[j].0,
            ps == planned(*config),
        decreases config.client@.len() - i,
    {
        prefs.push(config.client[i].id);
        i = i + 1;
    }
    let mut used: Vec<bool> = Vec::new();
    let mut k: usize = 0;
    while k < 256
        invariant
            k <= 256,
            used@.len() == k,
            forall|j: int| 0 <= j < k ==> !(#[trigger] used@[j]),
        decreases 256 - k,
    {
        used.push(false);
        k = k + 1;
    }
    proof {
        assert(ps.take(0) =~= Seq::<(NodeId, PlannedNode, Seq<NodeId>)>::empty());
        assert(Set::new(|k: NodeId| used@[k as int]) =~= Map::<NodeId, NodeEntry>::empty().dom());
    }
    let mut i: usize = 0;
    while i < prefs.len()
        invariant
            i <= prefs@.len(),
            prefs@.len() == ps.len(),
            ps == planned(*config),
            kinds_known(*config),
            forall|j: int| 0 <= j < ps.len() ==> #[trigger] prefs@[j] == ps[j].0,
            used@.len() == 256,
            placed(Map::empty(), ps.take(i as int)) is Some,
            Set::new(|k: NodeId| used@[k as int]) == (placed(Map::empty(), ps.take(i as int))->0).0.dom(),
        decreases prefs@.len() - i,
    {
        assert(ps.take(i + 1).drop_last() =~= ps.take(i as int));
        match first_unmarked(&used, prefs[i]) {
            Some(id) => {
                let ghost before = Set::new(|k: NodeId| used@[k as int]);
                used.set(id as usize, true);
                assert(Set::new(|k: NodeId| used@[k as int]) =~= before.insert(id));
            },
            None => {
                proof {
                    assert(ps.take(i + 1).last() == ps[i as int]);
                    assert(placed(Map::empty(), ps.take(i + 1)) is None);
                    lemma_placed_none(Map::empty(), ps, i as int + 1);
                }
                return false;
            },
        }
        i = i + 1;
    }
    assert(ps.take(ps.len() as int) =~= ps);
    true
}

/// When a prefix of `ps` cannot be placed, neither can `ps`.
proof fn lemma_placed_none(m: Map<NodeId, NodeEntry>, ps: Seq<(NodeId, PlannedNode, Seq<NodeId>)>, n: int)
    requires
        0 <= n <= ps.len(),
        placed(m, ps.take(n)) is None,
    ensures
        placed(m, ps) is None,
    decreases ps.len() - n,
{
    if n < ps.len() {
        assert(ps.take(n + 1).drop_last() =~= ps.take(n));
        lemma_placed_none(m, ps, n + 1);
    } else {
        assert(ps.take(n) =~= ps);
    }
}

/// Every planned node that becomes a server is started as a server of its
/// planned kind, by the order at its own position.
proof fn lemma_placed_server_orders(m: Map<NodeId, NodeEntry>, ps: Seq<(NodeId, PlannedNode, Seq<NodeId>)>)
    requires
        placed(m, ps) is Some,
    ensures
        (placed(m, ps)->0).1.len() == ps.len(),
        forall|k: int| 0 <= k < ps.len() && (#[trigger] ps[k]).1 is Server ==>
            (placed(m, ps)->0).1[k].order == NodeOrder::Spawn(NodeKind::Server(ps[k].1->Server_0)),
    decreases ps.len(),
{
    if ps.len() > 0 {
        lemma_placed_server_orders(m, ps.drop_last());
        assert forall|k: int| 0 <= k < ps.len() && (#[trigger] ps[k]).1 is Server implies
            (placed(m, ps)->0).1[k].order == NodeOrder::Spawn(NodeKind::Server(ps[k].1->Server_0)) by {
            if k < ps.len() - 1 {
                assert(ps.drop_last()[k] == ps[k]);
            }
        }
    }
}

/// A configured server whose kind is written "Content" is started as a
/// content server, and one written "Communication" as a communication
/// server: the order at the server's position among the spawn orders
/// (after the drones) starts it with that kind.
pub proof fn lemma_configured_server_kind(c: Config, i: int, skip_reversed: bool)
    requires
        ids_available(c),
        0 <= i < c.server@.len(),
    ensures
        c.server@[i].server_type@ == "Content"@ ==> built(c, skip_reversed).1[c.drone@.len() + i].order
            == NodeOrder::Spawn(NodeKind::Server(ServerType::Content)),
        c.server@[i].server_type@ == "Communication"@ ==> built(c, skip_reversed).1[c.drone@.len() + i].order
            == NodeOrder::Spawn(NodeKind::Server(ServerType::Communication)),
{
    reveal_strlit("Content");
    reveal_strlit("Communication");
    assert("Communication"@ != "Content"@) by {
        assert("Communication"@.len() == 13 && "Content"@.len() == 7);
    }
    let ps = planned(c);
    let k = c.drone@.len() + i;
    lemma_placed_server_orders(Map::empty(), ps);
    assert(ps[k] == (c.server@[i].id, PlannedNode::Server(server_type_named(c.server@[i].server_type@)->0),
        c.server@[i].connected_drone_ids@));
    let (m1, spawn) = placed(Map::empty(), ps)->0;
    let (m2, links, err) = linked_all(m1, deduplicated(config_pairs(ps), skip_reversed));
    assert(built(c, skip_reversed).1 == spawn + links);
    assert((spawn + links)[k] == spawn[k]);
}

} // verus!
