//! The network topology learnt by a node, and source routes through it.
use vstd::prelude::*;
use vstd::std_specs::hash::*;
use std::collections::HashMap;

use crate::NodeId;

verus! {

broadcast use {vstd::std_specs::hash::group_hash_axioms, vstd::seq_lib::group_seq_properties};

/// The adjacency lists of the network: for each node, its neighbours in the
/// order in which they were learnt.
pub struct NetworkTopology {
    pub adjacency: HashMap<NodeId, Vec<NodeId>>,
}

impl View for NetworkTopology {
    type V = Map<NodeId, Seq<NodeId>>;

    open spec fn view(&self) -> Map<NodeId, Seq<NodeId>> {
        self.adjacency@.map_values(|v: Vec<NodeId>| v@)
    }
}

/// `b` is listed as a neighbour of `a`.
pub open spec fn is_link(topo: Map<NodeId, Seq<NodeId>>, a: NodeId, b: NodeId) -> bool {
    topo.contains_key(a) && topo[a].contains(b)
}

/// The `i`-th step of `path` follows a link of `topo`.
pub open spec fn step_ok(topo: Map<NodeId, Seq<NodeId>>, path: Seq<NodeId>, i: int) -> bool {
    is_link(topo, path[i], path[i + 1])
}

/// `path` leads from `from` to `to` along links of `topo`.
pub open spec fn is_route(topo: Map<NodeId, Seq<NodeId>>, path: Seq<NodeId>, from: NodeId, to: NodeId) -> bool {
    &&& path.len() > 0
    &&& path[0] == from
    &&& path.last() == to
    &&& forall|i: int| 0 <= i < path.len() - 1 ==> #[trigger] step_ok(topo, path, i)
}

/// Some route leads from `from` to `to`.
pub open spec fn reachable(topo: Map<NodeId, Seq<NodeId>>, from: NodeId, to: NodeId) -> bool {
    exists|p: Seq<NodeId>| is_route(topo, p, from, to)
}

/// No route from `from` to `to` goes through fewer nodes than `path`.
pub open spec fn no_shorter_route(topo: Map<NodeId, Seq<NodeId>>, path: Seq<NodeId>, from: NodeId, to: NodeId) -> bool {
    forall|q: Seq<NodeId>| #[trigger] is_route(topo, q, from, to) ==> q.len() >= path.len()
}

/// The first `n` nodes of a route form a route to its `n`-th node.
proof fn lemma_route_take(topo: Map<NodeId, Seq<NodeId>>, q: Seq<NodeId>, from: NodeId, to: NodeId, n: int)
    requires
        is_route(topo, q, from, to),
        1 <= n <= q.len(),
    ensures
        is_route(topo, q.take(n), from, q[n - 1]),
{
    let t = q.take(n);
    assert forall|i: int| 0 <= i < t.len() - 1 implies #[trigger] step_ok(topo, t, i) by {
        assert(step_ok(topo, q, i));
    }
}

/// The routes waiting in a breadth-first search, as sequences of nodes.
pub open spec fn routes_view(queue: Seq<Vec<NodeId>>) -> Seq<Seq<NodeId>> {
    queue.map_values(|v: Vec<NodeId>| v@)
}

/// The neighbours listed for `node` in `topo`, none when it has no entry.
pub open spec fn neighbours_of(topo: Map<NodeId, Seq<NodeId>>, node: NodeId) -> Seq<NodeId> {
    if topo.contains_key(node) {
        topo[node]
    } else {
        Seq::empty()
    }
}

/// One expansion of a breadth-first search: each node of `nbrs` not yet
/// visited, taken in list order, is marked visited, and `path` extended by
/// it joins the back of the queue.
pub open spec fn bfs_expand(
    path: Seq<NodeId>,
    nbrs: Seq<NodeId>,
    queue: Seq<Seq<NodeId>>,
    visited: Seq<NodeId>,
) -> (Seq<Seq<NodeId>>, Seq<NodeId>)
    decreases nbrs.len(),
{
    if nbrs.len() == 0 {
        (queue, visited)
    } else if visited.contains(nbrs[0]) {
        bfs_expand(path, nbrs.drop_first(), queue, visited)
    } else {
        bfs_expand(path, nbrs.drop_first(), queue.push(path.push(nbrs[0])), visited.push(nbrs[0]))
    }
}

/// Breadth-first search for `peer`: the route at the front of `queue` is
/// taken; if it ends at `peer` it is the answer, and otherwise it is
/// expanded by the neighbours of its last node. `visited` holds the nodes
/// reached so far, and `fuel` bounds the number of steps.
pub open spec fn bfs_search(
    topo: Map<NodeId, Seq<NodeId>>,
    peer: NodeId,
    queue: Seq<Seq<NodeId>>,
    visited: Seq<NodeId>,
    fuel: nat,
) -> Option<Seq<NodeId>>
    decreases fuel,
{
    if fuel == 0 || queue.len() == 0 {
        None
    } else {
        let path = queue[0];
        if path.last() == peer {
            Some(path)
        } else {
            let (next_queue, next_visited) = bfs_expand(path, neighbours_of(topo, path.last()), queue.drop_first(), visited);
            bfs_search(topo, peer, next_queue, next_visited, (fuel - 1) as nat)
        }
    }
}

/// The route that breadth-first search from `from` finds to `peer`, where
/// the neighbours of a node are tried in the order in which they were
/// learnt. Each step but the last reaches a new node or empties the queue,
/// so 512 steps are enough for node ids of one byte.
pub open spec fn bfs_route(topo: Map<NodeId, Seq<NodeId>>, from: NodeId, peer: NodeId) -> Option<Seq<NodeId>> {
    bfs_search(topo, peer, seq![seq![from]], seq![from], 512)
}

/// The adjacency map after recording `hop` as a neighbour of `node`, once.
pub open spec fn adjacency_with_hop(m: Map<NodeId, Seq<NodeId>>, node: NodeId, hop: NodeId) -> Map<NodeId, Seq<NodeId>> {
    if m.contains_key(node) {
        if m[node].contains(hop) {
            m
        } else {
            m.insert(node, m[node].push(hop))
        }
    } else {
        m.insert(node, seq![hop])
    }
}

/// Distinct bytes are at most 256.
proof fn lemma_distinct_bytes_bounded(s: Seq<u8>)
    requires
        s.no_duplicates(),
    ensures
        s.len() <= 256,
{
    let t = s.map_values(|x: u8| x as int);
    assert(t.no_duplicates()) by {
        assert forall|i: int, j: int| 0 <= i < t.len() && 0 <= j < t.len() && i != j implies t[i] != t[j] by {
            assert(s[i] != s[j]);
        }
    }
    t.unique_seq_to_set();
    let r = vstd::set_lib::set_int_range(0, 256);
    assert(t.to_set().subset_of(r)) by {
        assert forall|x: int| t.to_set().contains(x) implies r.contains(x) by {
            let k = choose|k: int| 0 <= k < t.len() && t[k] == x;
            assert(0 <= s[k] < 256);
        }
    }
    vstd::set_lib::lemma_int_range(0, 256);
    vstd::set_lib::lemma_len_subset(t.to_set(), r);
}

/// A set of nodes that contains `from`, is closed under the links of `topo`
/// and misses `to` shows that `to` cannot be reached from `from`.
proof fn lemma_closed_set_blocks(topo: Map<NodeId, Seq<NodeId>>, s: Set<NodeId>, from: NodeId, to: NodeId)
    requires
        s.contains(from),
        !s.contains(to),
        forall|a: NodeId, b: NodeId| s.contains(a) && #[trigger] is_link(topo, a, b) ==> s.contains(b),
    ensures
        !reachable(topo, from, to),
{
    assert forall|p: Seq<NodeId>| !is_route(topo, p, from, to) by {
        if is_route(topo, p, from, to) {
            assert forall|i: int| 0 <= i < p.len() implies s.contains(#[trigger] p[i]) by {
                lemma_route_prefix_in(topo, s, p, from, to, i);
            }
            assert(s.contains(p[p.len() - 1]));
        }
    }
}

proof fn lemma_route_prefix_in(topo: Map<NodeId, Seq<NodeId>>, s: Set<NodeId>, p: Seq<NodeId>, from: NodeId, to: NodeId, i: int)
    requires
        s.contains(from),
        forall|a: NodeId, b: NodeId| s.contains(a) && #[trigger] is_link(topo, a, b) ==> s.contains(b),
        is_route(topo, p, from, to),
        0 <= i < p.len(),
    ensures
        s.contains(p[i]),
    decreases i,
{
    if i > 0 {
        lemma_route_prefix_in(topo, s, p, from, to, i - 1);
        assert(step_ok(topo, p, i - 1));
    }
}

/// Whether `node` occurs in `nodes`.
fn contains_node(nodes: &Vec<NodeId>, node: NodeId) -> (r: bool)
    ensures
        r == nodes@.contains(node),
{
    let mut i: usize = 0;
    while i < nodes.len()
        invariant
            i <= nodes.len(),
            forall|j: int| 0 <= j < i ==> nodes@[j] != node,
        decreases nodes.len() - i,
    {
        if nodes[i] == node {
            return true;
        }
        i = i + 1;
    }
    false
}

impl NetworkTopology {
    /// An empty topology.
    pub fn new() -> (t: Self)
        ensures
            t@ == Map::<NodeId, Seq<NodeId>>::empty(),
    {
        let t = NetworkTopology { adjacency: HashMap::new() };
        assert(t@ =~= Map::<NodeId, Seq<NodeId>>::empty());
        t
    }

    /// The neighbours recorded for `node`, if any.
    pub fn neighbours(&self, node: NodeId) -> (r: Option<&Vec<NodeId>>)
        ensures
            match r {
                Some(v) => self@.contains_key(node) && v@ == self@[node],
                None => !self@.contains_key(node),
            },
    {
        self.adjacency.get(&node)
    }

    /// Records `hop` as a neighbour of `node`, unless it is already listed.
    pub fn insert_hop(&mut self, node: NodeId, hop: NodeId)
        ensures
            final(self)@ == adjacency_with_hop(old(self)@, node, hop),
    {
        let ghost before = self@;
        match self.adjacency.get(&node) {
            Some(hops) => {
                if !contains_node(hops, hop) {
                    let mut new_hops = hops.clone();
                    new_hops.push(hop);
                    self.adjacency.insert(node, new_hops);
                    assert(self@ =~= before.insert(node, before[node].push(hop)));
                }
            },
            None => {
                let mut new_hops = Vec::new();
                new_hops.push(hop);
                self.adjacency.insert(node, new_hops);
                assert(self@ =~= before.insert(node, seq![hop]));
            },
        }
    }

    /// Breadth-first search for a route from `from` to `peer`. The route is
    /// returned as the list of nodes it goes through, both ends included.
    pub fn route_to_peer(&self, from: NodeId, peer: NodeId) -> (r: Option<Vec<NodeId>>)
        ensures
            r is Some <==> reachable(self@, from, peer),
            r matches Some(p) ==> is_route(self@, p@, from, peer) && p@.no_duplicates(),
            r matches Some(p) ==> no_shorter_route(self@, p@, from, peer),
            r matches Some(p) ==> bfs_route(self@, from, peer) == Some(p@),
            r is None ==> bfs_route(self@, from, peer) is None,
    {
        let mut visited: Vec<NodeId> = Vec::new();
        visited.push(from);
        let mut first: Vec<NodeId> = Vec::new();
        first.push(from);
        let mut queue: Vec<Vec<NodeId>> = Vec::new();
        queue.push(first);
        let ghost mut lasts: Seq<NodeId> = seq![from];
        let ghost mut expanded: Set<NodeId> = Set::empty();
        let ghost topo = self@;
        let ghost mut fuel: nat = 512;
        assert(is_route(topo, queue@[0]@, from, from));
        assert(routes_view(queue@) =~= seq![seq![from]]);
        while queue.len() > 0
            invariant
                topo == self@,
                bfs_search(topo, peer, routes_view(queue@), visited@, fuel) == bfs_route(topo, from, peer),
                fuel >= 2 * (256 - visited@.len()) + queue@.len(),
                visited@.no_duplicates(),
                visited@.contains(from),
                lasts.len() == queue@.len(),
                forall|k: int| 0 <= k < queue@.len() ==> {
                    &&& is_route(topo, #[trigger] queue@[k]@, from, lasts[k])
                    &&& queue@[k]@.no_duplicates()
                    &&& forall|j: int| 0 <= j < queue@[k]@.len() ==> visited@.contains(queue@[k]@[j])
                },
                forall|v: NodeId| #[trigger] expanded.contains(v) ==> visited@.contains(v) && v != peer,
                forall|v: NodeId, w: NodeId| expanded.contains(v) && #[trigger] is_link(topo, v, w) ==> visited@.contains(w),
                forall|v: NodeId| #[trigger] visited@.contains(v) ==> expanded.contains(v) || lasts.contains(v),
                forall|i: int, j: int| 0 <= i <= j < queue@.len() ==> (#[trigger] queue@[i])@.len() <= (#[trigger] queue@[j])@.len(),
                forall|k: int| 0 <= k < queue@.len() ==> (#[trigger] queue@[k])@.len() <= queue@[0]@.len() + 1,
                forall|k: int| 0 <= k < queue@.len() ==> no_shorter_route(topo, (#[trigger] queue@[k])@, from, lasts[k]),
                queue@.len() > 0 ==> forall|u: NodeId, q: Seq<NodeId>|
                    #[trigger] is_route(topo, q, from, u) && q.len() < queue@[0]@.len() ==> expanded.contains(u),
            decreases 2 * (256 - visited@.len()) + queue@.len(),
        {
            proof {
                lemma_distinct_bytes_bounded(visited@);
            }
            let ghost measure_start = 2 * (256 - visited@.len()) + queue@.len();
            let ghost old_queue = queue@;
            let ghost old_visited_all = visited@;
            let ghost old_fuel = fuel;
            let path = queue.remove(0);
            let ghost current_lasts = lasts;
            let ghost len_p = path@.len();
            proof {
                lasts = lasts.drop_first();
                assert(old_queue[0] == path);
                assert forall|k: int| 0 <= k < queue@.len() implies len_p <= (#[trigger] queue@[k])@.len() <= len_p + 1 by {
                    assert(queue@[k] == old_queue[k + 1]);
                    assert(old_queue[0]@.len() <= old_queue[k + 1]@.len());
                }
                assert forall|i: int, j: int| 0 <= i <= j < queue@.len() implies (#[trigger] queue@[i])@.len() <= (#[trigger] queue@[j])@.len() by {
                    assert(queue@[i] == old_queue[i + 1]);
                    assert(queue@[j] == old_queue[j + 1]);
                }
                assert forall|k: int| 0 <= k < queue@.len() implies no_shorter_route(topo, (#[trigger] queue@[k])@, from, lasts[k]) by {
                    assert(queue@[k] == old_queue[k + 1]);
                    assert(lasts[k] == current_lasts[k + 1]);
                }
                assert(no_shorter_route(topo, path@, from, current_lasts[0]));
            }
            assert(is_route(topo, path@, from, current_lasts[0]));
            let last = path[path.len() - 1];
            let ghost v0 = visited@.len();
            let ghost q0 = queue@.len();
            assert(measure_start == 2 * (256 - v0) + q0 + 1);
            proof {
                assert(routes_view(old_queue)[0] == path@);
                assert(routes_view(queue@) =~= routes_view(old_queue).drop_first());
            }
            if last == peer {
                return Some(path);
            }
            let ghost target = bfs_expand(path@, neighbours_of(topo, last), routes_view(queue@), visited@);
            assert(bfs_search(topo, peer, routes_view(old_queue), old_visited_all, old_fuel)
                == bfs_search(topo, peer, target.0, target.1, (old_fuel - 1) as nat));
            assert forall|v: NodeId| #[trigger] visited@.contains(v) implies v == last || expanded.contains(v) || lasts.contains(v) by {
                if !expanded.contains(v) {
                    let k = choose|k: int| 0 <= k < current_lasts.len() && current_lasts[k] == v;
                    if k > 0 {
                        assert(lasts[k - 1] == v);
                    }
                }
            }
            match self.adjacency.get(&last) {
                Some(neighbours) => {
                    assert(neighbours@.skip(0) =~= neighbours@);
                    let mut j: usize = 0;
                    while j < neighbours.len()
                        invariant
                            topo == self@,
                            topo.contains_key(last),
                            neighbours@ == topo[last],
                            j <= neighbours@.len(),
                            is_route(topo, path@, from, last),
                            path@.no_duplicates(),
                            forall|i: int| 0 <= i < path@.len() ==> visited@.contains(path@[i]),
                            last != peer,
                            visited@.no_duplicates(),
                            visited@.contains(from),
                            visited@.contains(last),
                            lasts.len() == queue@.len(),
                            forall|k: int| 0 <= k < queue@.len() ==> {
                                &&& is_route(topo, #[trigger] queue@[k]@, from, lasts[k])
                                &&& queue@[k]@.no_duplicates()
                                &&& forall|i: int| 0 <= i < queue@[k]@.len() ==> visited@.contains(queue@[k]@[i])
                            },
                            forall|v: NodeId| #[trigger] expanded.contains(v) ==> visited@.contains(v) && v != peer,
                            forall|v: NodeId, w: NodeId| expanded.contains(v) && #[trigger] is_link(topo, v, w) ==> visited@.contains(w),
                            forall|v: NodeId| #[trigger] visited@.contains(v) ==> v == last || expanded.contains(v) || lasts.contains(v),
                            forall|i: int| 0 <= i < j ==> visited@.contains(#[trigger] neighbours@[i]),
                            len_p == path@.len(),
                            forall|i: int, j: int| 0 <= i <= j < queue@.len() ==> (#[trigger] queue@[i])@.len() <= (#[trigger] queue@[j])@.len(),
                            forall|k: int| 0 <= k < queue@.len() ==> len_p <= (#[trigger] queue@[k])@.len() <= len_p + 1,
                            forall|k: int| 0 <= k < queue@.len() ==> no_shorter_route(topo, (#[trigger] queue@[k])@, from, lasts[k]),
                            no_shorter_route(topo, path@, from, last),
                            forall|u: NodeId, q: Seq<NodeId>|
                                #[trigger] is_route(topo, q, from, u) && q.len() < len_p ==> expanded.contains(u),
                            visited@.len() - v0 == queue@.len() - q0,
                            visited@.len() >= v0,
                            bfs_expand(path@, neighbours@.skip(j as int), routes_view(queue@), visited@) == target,
                        decreases neighbours.len() - j,
                    {
                        let n = neighbours[j];
                        let ghost old_visited = visited@;
                        let ghost old_lasts = lasts;
                        let ghost old_routes = routes_view(queue@);
                        proof {
                            assert(neighbours@.skip(j as int)[0] == n);
                            assert(neighbours@.skip(j as int).drop_first() =~= neighbours@.skip(j + 1));
                        }
                        if !contains_node(&visited, n) {
                            let mut new_path = path.clone();
                            new_path.push(n);
                            visited.push(n);
                            proof {
                                lasts = lasts.push(n);
                                lemma_distinct_bytes_bounded(visited@);
                                assert(step_ok(topo, new_path@, path@.len() - 1));
                                assert forall|i: int| 0 <= i < new_path@.len() - 1 implies #[trigger] step_ok(topo, new_path@, i) by {
                                    if i < path@.len() - 1 {
                                        assert(step_ok(topo, path@, i));
                                    }
                                }
                                assert(is_route(topo, new_path@, from, n));
                                assert forall|x: NodeId| old_visited.contains(x) implies visited@.contains(x) by {
                                    let k = choose|k: int| 0 <= k < old_visited.len() && old_visited[k] == x;
                                    assert(visited@[k] == x);
                                }
                                assert forall|x: NodeId| old_lasts.contains(x) implies lasts.contains(x) by {
                                    let k = choose|k: int| 0 <= k < old_lasts.len() && old_lasts[k] == x;
                                    assert(lasts[k] == x);
                                }
                                assert(visited@.last() == n);
                                assert(lasts.last() == n);
                                assert forall|q: Seq<NodeId>| #[trigger] is_route(topo, q, from, n) implies q.len() >= new_path@.len() by {
                                    if q.len() < new_path@.len() {
                                        assert(n != from);
                                        assert(q.len() >= 2);
                                        let u2 = q[q.len() - 2];
                                        lemma_route_take(topo, q, from, n, q.len() - 1);
                                        assert(is_route(topo, q.take(q.len() - 1), from, u2));
                                        if u2 == last {
                                            assert(q.take(q.len() - 1).len() >= path@.len());
                                        }
                                        assert(expanded.contains(u2));
                                        assert(step_ok(topo, q, q.len() - 2));
                                        assert(is_link(topo, u2, n));
                                        assert(old_visited.contains(n));
                                    }
                                }
                            }
                            queue.push(new_path);
                            assert(routes_view(queue@) =~= old_routes.push(path@.push(n)));
                        }
                        j = j + 1;
                    }
                    assert forall|w: NodeId| #[trigger] is_link(topo, last, w) implies visited@.contains(w) by {
                        let i = choose|i: int| 0 <= i < neighbours@.len() && neighbours@[i] == w;
                        assert(visited@.contains(neighbours@[i]));
                    }
                    assert(neighbours@.skip(neighbours@.len() as int) =~= Seq::<NodeId>::empty());
                },
                None => {
                    assert forall|w: NodeId| #[trigger] is_link(topo, last, w) implies visited@.contains(w) by {}
                },
            }
            proof {
                assert(routes_view(queue@) == target.0 && visited@ == target.1);
                fuel = (old_fuel - 1) as nat;
                let ghost expanded_before = expanded;
                expanded = expanded.insert(last);
                lemma_distinct_bytes_bounded(visited@);
                assert forall|k: int| 0 <= k < queue@.len() implies (#[trigger] queue@[k])@.len() <= queue@[0]@.len() + 1 by {
                    assert(len_p <= queue@[0]@.len());
                }
                if queue@.len() > 0 {
                    assert forall|u: NodeId, q: Seq<NodeId>| #[trigger] is_route(topo, q, from, u) && q.len() < queue@[0]@.len()
                        implies expanded.contains(u) by {
                        if q.len() >= len_p {
                            if q.len() == 1 {
                                assert(u == from);
                                assert(path@[0] == from);
                                assert(last == from);
                            } else {
                                let u2 = q[q.len() - 2];
                                lemma_route_take(topo, q, from, u, q.len() - 1);
                                assert(is_route(topo, q.take(q.len() - 1), from, u2));
                                assert(expanded.contains(u2));
                                assert(step_ok(topo, q, q.len() - 2));
                                assert(is_link(topo, u2, u));
                                assert(visited@.contains(u));
                                if !expanded.contains(u) {
                                    assert(lasts.contains(u));
                                    let k = choose|k: int| 0 <= k < lasts.len() && lasts[k] == u;
                                    assert(no_shorter_route(topo, queue@[k]@, from, lasts[k]));
                                    assert(queue@[0]@.len() <= queue@[k]@.len());
                                }
                            }
                        }
                    }
                }
                assert(visited@.len() - v0 == queue@.len() - q0);
                assert(2 * (256 - visited@.len()) + queue@.len() < measure_start);
            }
        }
        proof {
            assert forall|a: NodeId, b: NodeId| visited@.to_set().contains(a) && #[trigger] is_link(topo, a, b) implies visited@.to_set().contains(b) by {
                assert(visited@.contains(a));
            }
            lemma_closed_set_blocks(topo, visited@.to_set(), from, peer);
        }
        None
    }
}

} // verus!
