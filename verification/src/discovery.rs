//! Network discovery: the flood responses gathered by a node and the
//! topology rebuilt from their traces.
use vstd::prelude::*;

use crate::random::random_u64;
use crate::topology::{adjacency_with_hop, is_link, NetworkTopology};
use crate::wire::{FloodResponse, NodeType};
use crate::NodeId;

verus! {

broadcast use vstd::seq_lib::group_seq_properties;

/// The adjacency map after processing hop `i` of `trace`: the hop learns its
/// successor (if any), then its predecessor (if any).
pub open spec fn adjacency_with_trace_hop(m: Map<NodeId, Seq<NodeId>>, trace: Seq<(NodeId, NodeType)>, i: int) -> Map<NodeId, Seq<NodeId>> {
    let m1 = if i != trace.len() - 1 {
        adjacency_with_hop(m, trace[i].0, trace[i + 1].0)
    } else {
        m
    };
    if i != 0 {
        adjacency_with_hop(m1, trace[i].0, trace[i - 1].0)
    } else {
        m1
    }
}

/// The adjacency map after processing the first `i` hops of `trace`.
pub open spec fn adjacency_with_trace_prefix(m: Map<NodeId, Seq<NodeId>>, trace: Seq<(NodeId, NodeType)>, i: int) -> Map<NodeId, Seq<NodeId>>
    decreases i,
{
    if i <= 0 {
        m
    } else {
        adjacency_with_trace_hop(adjacency_with_trace_prefix(m, trace, i - 1), trace, i - 1)
    }
}

/// The adjacency map learnt from the first `n` traces, in order.
pub open spec fn adjacency_from_traces(traces: Seq<Seq<(NodeId, NodeType)>>, n: int) -> Map<NodeId, Seq<NodeId>>
    decreases n,
{
    if n <= 0 {
        Map::empty()
    } else {
        let prev = adjacency_from_traces(traces, n - 1);
        adjacency_with_trace_prefix(prev, traces[n - 1], traces[n - 1].len() as int)
    }
}

/// The traces of a list of flood responses.
pub open spec fn traces_of(responses: Seq<FloodResponse>) -> Seq<Seq<(NodeId, NodeType)>> {
    responses.map_values(|r: FloodResponse| r.path_trace@)
}

/// `a` and `b` are consecutive, in either order, in some trace.
pub open spec fn adjacent_in_traces(traces: Seq<Seq<(NodeId, NodeType)>>, a: NodeId, b: NodeId) -> bool {
    exists|k: int, i: int|
        0 <= k < traces.len() && 0 <= i < traces[k].len() - 1 && #[trigger] consecutive(traces[k], i, a, b)
}

/// Hops `i` and `i + 1` of `trace` are `a` and `b`, in either order.
pub open spec fn consecutive(trace: Seq<(NodeId, NodeType)>, i: int, a: NodeId, b: NodeId) -> bool {
    (trace[i].0 == a && trace[i + 1].0 == b) || (trace[i].0 == b && trace[i + 1].0 == a)
}

/// No adjacency list holds a node twice.
pub open spec fn lists_distinct(m: Map<NodeId, Seq<NodeId>>) -> bool {
    forall|n: NodeId| #[trigger] m.contains_key(n) ==> m[n].no_duplicates()
}

proof fn lemma_with_hop(m: Map<NodeId, Seq<NodeId>>, node: NodeId, hop: NodeId)
    ensures
        forall|a: NodeId, b: NodeId| #[trigger] is_link(adjacency_with_hop(m, node, hop), a, b) <==> (is_link(m, a, b) || (a == node && b == hop)),
        lists_distinct(m) ==> lists_distinct(adjacency_with_hop(m, node, hop)),
{
    let r = adjacency_with_hop(m, node, hop);
    assert forall|a: NodeId, b: NodeId| #[trigger] is_link(r, a, b) <==> (is_link(m, a, b) || (a == node && b == hop)) by {
        if m.contains_key(node) && !m[node].contains(hop) && a == node {
            assert(m[node].push(hop)[m[node].len() as int] == hop);
            if m[node].push(hop).contains(b) && b != hop {
                let k = choose|k: int| 0 <= k < m[node].push(hop).len() && m[node].push(hop)[k] == b;
                assert(m[node][k] == b);
            }
            if m[node].contains(b) {
                let k = choose|k: int| 0 <= k < m[node].len() && m[node][k] == b;
                assert(m[node].push(hop)[k] == b);
            }
        }
        if !m.contains_key(node) && a == node {
            assert(seq![hop][0] == hop);
        }
    }
    if lists_distinct(m) {
        assert forall|n: NodeId| #[trigger] r.contains_key(n) implies r[n].no_duplicates() by {
            if n == node && m.contains_key(node) && !m[node].contains(hop) {
                let s = m[node].push(hop);
                assert forall|i: int, j: int| 0 <= i < s.len() && 0 <= j < s.len() && i != j implies s[i] != s[j] by {
                    if i == s.len() - 1 {
                        assert(m[node][j] == s[j]);
                    } else if j == s.len() - 1 {
                        assert(m[node][i] == s[i]);
                    }
                }
            }
        }
    }
}

/// The links after the first `i` hops of `trace`: the old ones, each hop
/// before `i` towards its successor, and each hop before `i` but the first
/// towards its predecessor.
proof fn lemma_trace_prefix(m: Map<NodeId, Seq<NodeId>>, trace: Seq<(NodeId, NodeType)>, i: int)
    requires
        0 <= i <= trace.len(),
    ensures
        forall|a: NodeId, b: NodeId| #[trigger] is_link(adjacency_with_trace_prefix(m, trace, i), a, b) <==> {
            ||| is_link(m, a, b)
            ||| exists|j: int| 0 <= j < i && j < trace.len() - 1 && #[trigger] forward(trace, j, a, b)
            ||| exists|j: int| 1 <= j < i && #[trigger] backward(trace, j, a, b)
        },
        lists_distinct(m) ==> lists_distinct(adjacency_with_trace_prefix(m, trace, i)),
    decreases i,
{
    if i > 0 {
        lemma_trace_prefix(m, trace, i - 1);
        let p = adjacency_with_trace_prefix(m, trace, i - 1);
        let j = i - 1;
        let m1 = if j != trace.len() - 1 { adjacency_with_hop(p, trace[j].0, trace[j + 1].0) } else { p };
        lemma_with_hop(p, trace[j].0, trace[(j + 1) % (trace.len() as int)].0);
        if j != trace.len() - 1 {
            lemma_with_hop(p, trace[j].0, trace[j + 1].0);
        }
        if j != 0 {
            lemma_with_hop(m1, trace[j].0, trace[j - 1].0);
        }
        let r = adjacency_with_trace_prefix(m, trace, i);
        assert forall|a: NodeId, b: NodeId| #[trigger] is_link(r, a, b) <==> {
            ||| is_link(m, a, b)
            ||| exists|k: int| 0 <= k < i && k < trace.len() - 1 && #[trigger] forward(trace, k, a, b)
            ||| exists|k: int| 1 <= k < i && #[trigger] backward(trace, k, a, b)
        } by {
            if is_link(p, a, b) {
            }
            if j != trace.len() - 1 && forward(trace, j, a, b) {
            }
            if j != 0 && backward(trace, j, a, b) {
            }
            if exists|k: int| 0 <= k < i && k < trace.len() - 1 && #[trigger] forward(trace, k, a, b) {
                let k = choose|k: int| 0 <= k < i && k < trace.len() - 1 && #[trigger] forward(trace, k, a, b);
                if k < j {
                    assert(is_link(p, a, b));
                }
            }
            if exists|k: int| 1 <= k < i && #[trigger] backward(trace, k, a, b) {
                let k = choose|k: int| 1 <= k < i && #[trigger] backward(trace, k, a, b);
                if k < j {
                    assert(is_link(p, a, b));
                }
            }
        }
    }
}

/// Hop `j` of `trace` is `a` and its successor is `b`.
pub open spec fn forward(trace: Seq<(NodeId, NodeType)>, j: int, a: NodeId, b: NodeId) -> bool {
    trace[j].0 == a && trace[j + 1].0 == b
}

/// Hop `j` of `trace` is `a` and its predecessor is `b`.
pub open spec fn backward(trace: Seq<(NodeId, NodeType)>, j: int, a: NodeId, b: NodeId) -> bool {
    trace[j].0 == a && trace[j - 1].0 == b
}

/// The links learnt from the first `n` traces are exactly the pairs of
/// consecutive hops of those traces, in both directions, and no list holds
/// a node twice.
proof fn lemma_traces(traces: Seq<Seq<(NodeId, NodeType)>>, n: int)
    requires
        0 <= n <= traces.len(),
    ensures
        forall|a: NodeId, b: NodeId| #[trigger] is_link(adjacency_from_traces(traces, n), a, b) <==> adjacent_in_traces(traces.take(n), a, b),
        lists_distinct(adjacency_from_traces(traces, n)),
    decreases n,
{
    if n == 0 {
        assert forall|a: NodeId, b: NodeId| !adjacent_in_traces(traces.take(0), a, b) by {}
    } else {
        lemma_traces(traces, n - 1);
        let prev = adjacency_from_traces(traces, n - 1);
        let t = traces[n - 1];
        lemma_trace_prefix(prev, t, t.len() as int);
        assert forall|a: NodeId, b: NodeId| #[trigger] is_link(adjacency_from_traces(traces, n), a, b) <==> adjacent_in_traces(traces.take(n), a, b) by {
            let tn = traces.take(n);
            let tp = traces.take(n - 1);
            if is_link(prev, a, b) {
                assert(adjacent_in_traces(tp, a, b));
                let (k, i) = choose|k: int, i: int| 0 <= k < tp.len() && 0 <= i < tp[k].len() - 1 && #[trigger] consecutive(tp[k], i, a, b);
                assert(tn[k] == tp[k]);
                assert(consecutive(tn[k], i, a, b));
            }
            if exists|j: int| 0 <= j < t.len() && j < t.len() - 1 && #[trigger] forward(t, j, a, b) {
                let j = choose|j: int| 0 <= j < t.len() && j < t.len() - 1 && #[trigger] forward(t, j, a, b);
                assert(tn[n - 1] == t);
                assert(consecutive(tn[n - 1], j, a, b));
            }
            if exists|j: int| 1 <= j < t.len() && #[trigger] backward(t, j, a, b) {
                let j = choose|j: int| 1 <= j < t.len() && #[trigger] backward(t, j, a, b);
                assert(tn[n - 1] == t);
                assert(consecutive(tn[n - 1], j - 1, a, b));
            }
            if adjacent_in_traces(tn, a, b) {
                let (k, i) = choose|k: int, i: int| 0 <= k < tn.len() && 0 <= i < tn[k].len() - 1 && #[trigger] consecutive(tn[k], i, a, b);
                if k < n - 1 {
                    assert(tp[k] == tn[k]);
                    assert(consecutive(tp[k], i, a, b));
                    assert(adjacent_in_traces(tp, a, b));
                } else {
                    assert(tn[k] == t);
                    if t[i].0 == a && t[i + 1].0 == b {
                        assert(forward(t, i, a, b));
                    } else {
                        assert(backward(t, i + 1, a, b));
                    }
                }
            }
        }
    }
}

/// The state of the network discovery of a node: the identifier of the last
/// flood it started, whether it is still waiting for responses, the
/// responses gathered so far and when the flood started (in milliseconds of
/// the caller's monotonic clock).
pub struct NetDiscovery {
    pub last_id: u64,
    pub ongoing: bool,
    pub responses: Vec<FloodResponse>,
    pub start_time: u64,
}

impl NetDiscovery {
    /// No flood started yet, no response gathered; `now` is the current time.
    pub fn new(now: u64) -> (d: Self)
        ensures
            d.last_id == 0,
            !d.ongoing,
            d.responses@.len() == 0,
            d.start_time == now,
    {
        NetDiscovery { last_id: 0, ongoing: false, responses: Vec::new(), start_time: now }
    }

    /// Rebuilds the topology from the traces of the gathered responses and
    /// forgets the responses. Each hop of each trace learns its successor
    /// and its predecessor, once each, in the order of the traces.
    pub fn parse_network(&mut self) -> (t: NetworkTopology)
        ensures
            t@ == adjacency_from_traces(traces_of(old(self).responses@), old(self).responses@.len() as int),
            forall|a: NodeId, b: NodeId| #[trigger] is_link(t@, a, b) <==> adjacent_in_traces(traces_of(old(self).responses@), a, b),
            forall|a: NodeId, b: NodeId| #[trigger] is_link(t@, a, b) ==> is_link(t@, b, a),
            lists_distinct(t@),
            final(self).responses@.len() == 0,
            final(self).last_id == old(self).last_id,
            final(self).ongoing == old(self).ongoing,
            final(self).start_time == old(self).start_time,
    {
        let ghost traces = traces_of(self.responses@);
        let mut topology = NetworkTopology::new();
        let mut k: usize = 0;
        while k < self.responses.len()
            invariant
                k <= self.responses@.len(),
                traces == traces_of(self.responses@),
                topology@ == adjacency_from_traces(traces, k as int),
            decreases self.responses@.len() - k,
        {
            let trace = &self.responses[k].path_trace;
            let ghost before = topology@;
            assert(trace@ == traces[k as int]);
            let mut i: usize = 0;
            while i < trace.len()
                invariant
                    i <= trace@.len(),
                    topology@ == adjacency_with_trace_prefix(before, trace@, i as int),
                decreases trace@.len() - i,
            {
                let hop = trace[i].0;
                if i != trace.len() - 1 {
                    topology.insert_hop(hop, trace[i + 1].0);
                }
                if i != 0 {
                    topology.insert_hop(hop, trace[i - 1].0);
                }
                i = i + 1;
            }
            k = k + 1;
        }
        proof {
            lemma_traces(traces, traces.len() as int);
            assert(traces.take(traces.len() as int) =~= traces);
            assert forall|a: NodeId, b: NodeId| #[trigger] is_link(topology@, a, b) implies is_link(topology@, b, a) by {
                let (k, i) = choose|k: int, i: int| 0 <= k < traces.len() && 0 <= i < traces[k].len() - 1 && #[trigger] consecutive(traces[k], i, a, b);
                assert(consecutive(traces[k], i, b, a));
            }
        }
        self.responses.clear();
        topology
    }

    /// Gathers one more flood response.
    pub fn add_response(&mut self, response: FloodResponse)
        ensures
            final(self).responses@ == old(self).responses@.push(response),
            final(self).last_id == old(self).last_id,
            final(self).ongoing == old(self).ongoing,
            final(self).start_time == old(self).start_time,
    {
        self.responses.push(response);
    }

    /// The identifier of the last flood started.
    pub fn get_id(&self) -> (r: u64)
        ensures
            r == self.last_id,
    {
        self.last_id
    }

    /// Whether the discovery is still waiting for responses.
    pub fn get_ongoing(&self) -> (r: bool)
        ensures
            r == self.ongoing,
    {
        self.ongoing
    }

    /// Sets whether the discovery is waiting for responses.
    pub fn set_ongoing(&mut self, value: bool)
        ensures
            final(self).ongoing == value,
            final(self).last_id == old(self).last_id,
            final(self).responses@ == old(self).responses@,
            final(self).start_time == old(self).start_time,
    {
        self.ongoing = value;
    }

    /// Milliseconds since the last flood started, at time `now` (zero if
    /// `now` comes before the start).
    pub fn get_elapsed(&self, now: u64) -> (r: u64)
        ensures
            r == if now >= self.start_time { now - self.start_time } else { 0 },
    {
        if now >= self.start_time {
            now - self.start_time
        } else {
            0
        }
    }

    /// Starts a new flood at time `now`: a fresh random identifier, waiting
    /// for responses, none gathered yet.
    pub fn init(&mut self, now: u64)
        ensures
            final(self).ongoing,
            final(self).start_time == now,
            final(self).responses@.len() == 0,
    {
        self.last_id = random_u64();
        self.set_ongoing(true);
        self.start_time = now;
        self.responses.clear();
    }
}

} // verus!
