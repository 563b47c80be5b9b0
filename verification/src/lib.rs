//! A thread-safe directed graph store with stateful edges, verified.
//!
//! Nodes are keyed by `u64` and carry a `String` payload; edges carry a
//! `String` payload and an explicit [`EdgeId`], and connect a source key to a
//! destination key.  The mutable [`Graph`] keeps its nodes, its edges and two
//! adjacency indices in sharded concurrent maps; [`Graph::into_read_only`]
//! consumes it into an immutable snapshot, [`read_only::ReadOnlyGraph`].
//!
//! The store is modelled (see [`model`]) by its node map together with a log
//! of edge records in creation order; every public operation's contract says
//! what it returns and how it changes that model.
use vstd::prelude::*;
use vstd::string::StringExecFns;

use std::collections::hash_map::RandomState;

pub mod model;
mod sync_map;
pub mod read_only;
pub mod dot;

use model::EdgeRec;
use read_only::ReadOnlyGraph;

verus! {

/// The process-unique identifier of one edge, assigned at creation time and
/// monotonically increasing from zero within one store instance.
#[derive(Debug, Default, Clone, Copy, PartialEq, Eq, Hash, Structural)]
pub struct EdgeId(pub u64);

/// A thread-safe directed graph with stateful edges.
///
/// Nodes, edges and the two adjacency indices live in four sharded
/// concurrent maps; edge identifiers come from a single counter.  The
/// verified interface takes `&mut self` for every mutation, so each
/// contract states the call's exact effect on the store's model.
pub struct Graph {
    nodes: sync_map::NodeMap,
    edges: sync_map::EdgeMap,
    to: sync_map::AdjMap,
    from: sync_map::AdjMap,
    curr_edge_id: u64,
    edge_hist: Ghost<Seq<EdgeRec>>,
}

impl Graph {
    /// The node map of the store: key to payload.
    pub open(crate) spec fn nodes_view(self) -> Map<u64, Seq<char>> {
        sync_map::node_map_view(self.nodes)
    }

    /// The edge log of the store: one record per edge, in creation order.
    /// An edge's identifier is its position in the log.
    pub open(crate) spec fn log(self) -> Seq<EdgeRec> {
        self.edge_hist@
    }

    /// Well-formedness: the four maps agree with the model.  The edge map
    /// holds exactly the logged payloads, each adjacency index is the one
    /// the log induces, the identifier counter equals the number of edges
    /// created, and every edge endpoint names a stored node.
    pub open(crate) spec fn wf(self) -> bool {
        &&& self.nodes_view().dom().finite()
        &&& sync_map::edge_map_view(self.edges) == model::edge_payloads(self.log())
        &&& sync_map::adj_map_view(self.from) == model::out_map(self.log())
        &&& sync_map::adj_map_view(self.to) == model::in_map(self.log())
        &&& self.curr_edge_id == self.log().len()
        &&& forall|i: int|
            0 <= i < self.log().len() ==> self.nodes_view().dom().contains(
                (#[trigger] self.log()[i]).src,
            ) && self.nodes_view().dom().contains(self.log()[i].dst)
    }

    /// Create an empty graph with the default randomized key hasher.
    pub fn new() -> (r: Graph)
        ensures
            r.wf(),
            r.nodes_view() == model::no_nodes(),
            r.log() == Seq::<EdgeRec>::empty(),
    {
        Graph::with_hasher(sync_map::random_state_default())
    }

    /// Create an empty graph with room reserved for at least `capacity`
    /// nodes.
    pub fn with_capacity(capacity: usize) -> (r: Graph)
        ensures
            r.wf(),
            r.nodes_view() == model::no_nodes(),
            r.log() == Seq::<EdgeRec>::empty(),
    {
        Graph::with_capacity_and_hasher(capacity, sync_map::random_state_default())
    }

    /// Create an empty graph that uses the provided hasher for indexing
    /// nodes.
    pub fn with_hasher(hasher: RandomState) -> (r: Graph)
        ensures
            r.wf(),
            r.nodes_view() == model::no_nodes(),
            r.log() == Seq::<EdgeRec>::empty(),
    {
        Graph::with_capacity_and_hasher(0, hasher)
    }

    /// Create an empty graph with the given starting capacity and node
    /// hasher.  Edge and adjacency storage is pre-sized at half the node
    /// capacity, assuming an even fan-out; edge identifiers always use a
    /// fixed integer-identity hasher, independent of `hasher`.
    pub fn with_capacity_and_hasher(capacity: usize, hasher: RandomState) -> (r: Graph)
        ensures
            r.wf(),
            r.nodes_view() == model::no_nodes(),
            r.log() == Seq::<EdgeRec>::empty(),
    {
        let edge_capacity: usize = capacity / 2;
        let g = Graph {
            nodes: sync_map::node_map_new(capacity, &hasher),
            edges: sync_map::edge_map_new(capacity, sync_map::edge_hasher_default()),
            to: sync_map::adj_map_new(edge_capacity, &hasher),
            from: sync_map::adj_map_new(edge_capacity, &hasher),
            curr_edge_id: 0,
            edge_hist: Ghost(Seq::empty()),
        };
        proof {
            assert(model::edge_payloads(g.log()) =~= model::no_edges());
            assert(model::out_map(g.log()) =~= model::no_adj());
            assert(model::in_map(g.log()) =~= model::no_adj());
        }
        g
    }

    /// The number of nodes in the graph.
    pub fn len(&self) -> (r: usize)
        requires
            self.wf(),
        ensures
            r == self.nodes_view().dom().len(),
    {
        sync_map::node_map_len(&self.nodes)
    }

    /// Whether the graph contains no nodes.
    pub fn is_empty(&self) -> (r: bool)
        requires
            self.wf(),
        ensures
            r <==> self.nodes_view().dom().len() == 0,
    {
        self.len() == 0
    }

    /// Whether a node is stored under `key`.
    pub fn has_node(&self, key: u64) -> (r: bool)
        requires
            self.wf(),
        ensures
            r == self.nodes_view().dom().contains(key),
    {
        sync_map::node_map_contains(&self.nodes, key)
    }

    /// The payload of the node stored under `key`, if any.
    pub fn get_node(&self, key: u64) -> (r: Option<String>)
        requires
            self.wf(),
        ensures
            match r {
                Some(v) => self.nodes_view().dom().contains(key) && v@ == self.nodes_view()[key],
                None => !self.nodes_view().dom().contains(key),
            },
    {
        sync_map::node_map_get(&self.nodes, key)
    }

    /// Insert a node under `key`, overwriting and returning the payload
    /// previously stored there, if any.
    pub fn insert(&mut self, key: u64, value: String) -> (r: Option<String>)
        requires
            old(self).wf(),
        ensures
            final(self).wf(),
            final(self).nodes_view() == old(self).nodes_view().insert(key, value@),
            final(self).log() == old(self).log(),
            match r {
                Some(v) => old(self).nodes_view().dom().contains(key) && v@ == old(
                    self,
                ).nodes_view()[key],
                None => !old(self).nodes_view().dom().contains(key),
            },
    {
        sync_map::node_map_insert(&mut self.nodes, key, value)
    }

    /// Replace the payload of the node stored under `key`, in place through
    /// an exclusive handle to that one entry, and report whether the key
    /// was stored.  An absent key leaves the store unchanged.
    pub fn update_node(&mut self, key: u64, value: String) -> (r: bool)
        requires
            old(self).wf(),
        ensures
            final(self).wf(),
            r == old(self).nodes_view().dom().contains(key),
            final(self).log() == old(self).log(),
            final(self).nodes_view() == if old(self).nodes_view().dom().contains(key) {
                old(self).nodes_view().insert(key, value@)
            } else {
                old(self).nodes_view()
            },
    {
        sync_map::node_map_update(&mut self.nodes, key, value)
    }

    /// The payload of the edge with the given identifier, if that edge was
    /// created by this store.
    pub fn get_edge(&self, edge_id: EdgeId) -> (r: Option<String>)
        requires
            self.wf(),
        ensures
            match r {
                Some(v) => (edge_id.0 as nat) < self.log().len() && v@ == self.log()[
                    edge_id.0 as int
                ].payload,
                None => (edge_id.0 as nat) >= self.log().len(),
            },
    {
        sync_map::edge_map_get(&self.edges, edge_id.0)
    }

    /// Add an edge from node `from` to node `to`, carrying `edge`, and
    /// return its fresh identifier: the number of edges created before it.
    ///
    /// Both endpoints must already be stored; an edge referencing an absent
    /// node would be a contract violation, not a data condition.
    pub fn add_edge(&mut self, from: u64, to: u64, edge: String) -> (r: EdgeId)
        requires
            old(self).wf(),
            old(self).nodes_view().dom().contains(from),
            old(self).nodes_view().dom().contains(to),
            old(self).log().len() < u64::MAX,
        ensures
            final(self).wf(),
            final(self).nodes_view() == old(self).nodes_view(),
            final(self).log() == old(self).log().push(
                (EdgeRec { src: from, dst: to, payload: edge@ }),
            ),
            r == (EdgeId(old(self).log().len() as u64)),
            model::out_of(final(self).log(), from) == model::out_of(old(self).log(), from).push(
                ((old(self).log().len() as u64, to)),
            ),
            model::in_of(final(self).log(), to) == model::in_of(old(self).log(), to).push(
                ((old(self).log().len() as u64, from)),
            ),
            forall|k: u64|
                k != from ==> #[trigger] model::out_of(final(self).log(), k) == model::out_of(
                    old(self).log(),
                    k,
                ),
            forall|k: u64|
                k != to ==> #[trigger] model::in_of(final(self).log(), k) == model::in_of(
                    old(self).log(),
                    k,
                ),
    {
        let ghost old_log = self.edge_hist@;
        let ghost rec = EdgeRec { src: from, dst: to, payload: edge@ };
        let edge_id: u64 = self.curr_edge_id;
        self.curr_edge_id = edge_id + 1;
        sync_map::edge_map_insert(&mut self.edges, edge_id, edge);
        sync_map::adj_map_push(&mut self.from, from, (edge_id, to));
        sync_map::adj_map_push(&mut self.to, to, (edge_id, from));
        self.edge_hist = Ghost(old_log.push(rec));
        proof {
            model::lemma_add_edge_adjacency(old_log, rec);
            model::lemma_out_map_push(old_log, rec);
            model::lemma_in_map_push(old_log, rec);
            if !model::out_map(old_log).dom().contains(from) {
                assert(model::out_of(old_log, from) =~= Seq::<(u64, u64)>::empty());
                assert(model::out_of(old_log, from).push((edge_id, to)) =~= seq![(edge_id, to)]);
            }
            if !model::in_map(old_log).dom().contains(to) {
                assert(model::in_of(old_log, to) =~= Seq::<(u64, u64)>::empty());
                assert(model::in_of(old_log, to).push((edge_id, from)) =~= seq![(edge_id, from)]);
            }
            assert forall|i: int| 0 <= i < self.log().len() implies self.nodes_view().dom().contains(
                (#[trigger] self.log()[i]).src,
            ) && self.nodes_view().dom().contains(self.log()[i].dst) by {
                if i < old_log.len() {
                    assert(self.log()[i] == old_log[i]);
                }
            }
        }
        EdgeId(edge_id)
    }

    /// The ordered outgoing adjacency list of `from`: one `(edge id,
    /// destination)` pair per edge leaving it, in creation order; absent if
    /// no edge leaves it.
    pub fn edges_from(&self, from: u64) -> (r: Option<Vec<(EdgeId, u64)>>)
        requires
            self.wf(),
        ensures
            match r {
                Some(v) => model::out_of(self.log(), from).len() > 0 && v@ == model::wrap_ids(
                    model::out_of(self.log(), from),
                ),
                None => model::out_of(self.log(), from).len() == 0,
            },
    {
        match sync_map::adj_map_get(&self.from, from) {
            None => None,
            Some(raw) => Some(wrap_entries(raw)),
        }
    }

    /// The ordered incoming adjacency list of `to`: one `(edge id, source)`
    /// pair per edge arriving at it, in creation order; absent if no edge
    /// arrives at it.
    pub fn edges_to(&self, to: u64) -> (r: Option<Vec<(EdgeId, u64)>>)
        requires
            self.wf(),
        ensures
            match r {
                Some(v) => model::in_of(self.log(), to).len() > 0 && v@ == model::wrap_ids(
                    model::in_of(self.log(), to),
                ),
                None => model::in_of(self.log(), to).len() == 0,
            },
    {
        match sync_map::adj_map_get(&self.to, to) {
            None => None,
            Some(raw) => Some(wrap_entries(raw)),
        }
    }

    /// Every stored node as a `(key, payload)` pair, each exactly once, in
    /// an unspecified order.
    pub fn iter_nodes(&self) -> (r: Vec<(u64, String)>)
        requires
            self.wf(),
        ensures
            model::covers(self.nodes_view(), model::pairs_view(r@)),
    {
        sync_map::node_map_pairs(&self.nodes)
    }

    /// Free excess memory reserved for nodes and edges.  The per-key
    /// adjacency lists are not compacted; for that, use
    /// [`Graph::shrink_all_to_fit`].
    pub fn shrink_to_fit(&mut self)
        requires
            old(self).wf(),
        ensures
            final(self).wf(),
            final(self).nodes_view() == old(self).nodes_view(),
            final(self).log() == old(self).log(),
    {
        sync_map::node_map_shrink(&mut self.nodes);
        sync_map::edge_map_shrink(&mut self.edges);
        sync_map::adj_map_shrink(&mut self.to);
        sync_map::adj_map_shrink(&mut self.from);
    }

    /// Aggressively release unused memory, compacting every per-key
    /// adjacency list as well.  This has a high CPU cost; use it only under
    /// memory pressure.
    pub fn shrink_all_to_fit(&mut self)
        requires
            old(self).wf(),
        ensures
            final(self).wf(),
            final(self).nodes_view() == old(self).nodes_view(),
            final(self).log() == old(self).log(),
    {
        sync_map::node_map_shrink(&mut self.nodes);
        sync_map::edge_map_shrink(&mut self.edges);
        sync_map::adj_map_shrink_lists(&mut self.to);
        sync_map::adj_map_shrink(&mut self.to);
        sync_map::adj_map_shrink_lists(&mut self.from);
        sync_map::adj_map_shrink(&mut self.from);
    }

    /// Deep-copy the whole store, including the current value of the edge
    /// identifier counter.  The copy allocates independently from then on,
    /// so the original and the duplicate can hand out colliding identifiers
    /// afterwards: a documented risk of duplication, not prevented here.
    pub fn duplicate(&self) -> (r: Graph)
        requires
            self.wf(),
        ensures
            r.wf(),
            r.nodes_view() == self.nodes_view(),
            r.log() == self.log(),
    {
        Graph {
            nodes: sync_map::node_map_clone(&self.nodes),
            edges: sync_map::edge_map_clone(&self.edges),
            to: sync_map::adj_map_clone(&self.to),
            from: sync_map::adj_map_clone(&self.from),
            curr_edge_id: self.curr_edge_id,
            edge_hist: Ghost(self.edge_hist@),
        }
    }

    /// Consume the store into an immutable snapshot holding exactly the
    /// nodes and edges written before the call.  The mutable store is gone
    /// afterwards, so nothing can race the capture and nothing can be
    /// written after it.
    pub fn into_read_only(self) -> (r: ReadOnlyGraph)
        requires
            self.wf(),
        ensures
            r.wf(),
            r.nodes_view() == self.nodes_view(),
            r.log() == self.log(),
    {
        let ghost hist = self.edge_hist@;
        ReadOnlyGraph {
            nodes: sync_map::node_map_freeze(self.nodes),
            edges: sync_map::edge_map_freeze(self.edges),
            to: sync_map::adj_map_freeze(self.to),
            from: sync_map::adj_map_freeze(self.from),
            edge_hist: Ghost(hist),
        }
    }
}

impl Graph {
    /// Render the whole store as a plain-text directed-graph description:
    /// a header with a left-to-right layout hint, one line per node with
    /// its payload as the label, and one line per edge.  Nodes and source
    /// keys appear in whatever order the maps are walked; the edges of one
    /// source keep creation order.
    pub fn to_dot(&self) -> (r: String)
        requires
            self.wf(),
        ensures
            exists|ns: Seq<(u64, Seq<char>)>, es: Seq<(u64, Seq<(u64, u64)>)>|
                model::covers(self.nodes_view(), ns) && model::covers(
                    model::out_map(self.log()),
                    es,
                ) && r@ == dot::graph_dot_text(ns, es),
    {
        let pairs = sync_map::node_map_pairs(&self.nodes);
        let froms = sync_map::adj_map_pairs(&self.from);
        let mut s = String::new();
        s.append("digraph G {\n");
        s.append("  rankdir=LR;\n");
        s.append("\n");
        let ghost header = s@;
        let ghost nview = model::pairs_view(pairs@);
        let mut i: usize = 0;
        while i < pairs.len()
            invariant
                0 <= i <= pairs@.len(),
                nview == model::pairs_view(pairs@),
                s@ == header + dot::graph_node_section(nview.take(i as int)),
            decreases pairs@.len() - i,
        {
            let p = &pairs[i];
            s.append("  ");
            dot::append_u64(&mut s, p.0);
            s.append(" [label=\"");
            s.append(p.1.as_str());
            s.append("\"];\n");
            proof {
                assert(nview.take(i + 1).drop_last() =~= nview.take(i as int));
                assert(nview.take(i + 1).last() == nview[i as int]);
                assert(s@ =~= header + dot::graph_node_section(nview.take(i + 1)));
            }
            i += 1;
        }
        proof {
            assert(nview.take(pairs@.len() as int) =~= nview);
        }
        s.append("\n");
        let ghost mid = s@;
        let ghost eview = model::adj_pairs_view(froms@);
        let mut j: usize = 0;
        while j < froms.len()
            invariant
                0 <= j <= froms@.len(),
                eview == model::adj_pairs_view(froms@),
                s@ == mid + dot::graph_edge_section(eview.take(j as int)),
            decreases froms@.len() - j,
        {
            let entry = &froms[j];
            let key: u64 = entry.0;
            let ghost inner_done = s@;
            let mut t: usize = 0;
            while t < entry.1.len()
                invariant
                    0 <= t <= entry.1@.len(),
                    s@ == inner_done + dot::graph_edge_lines_for(key, entry.1@.take(t as int)),
                decreases entry.1@.len() - t,
            {
                let dst: u64 = entry.1[t].1;
                s.append("  ");
                dot::append_u64(&mut s, key);
                s.append(" -> ");
                dot::append_u64(&mut s, dst);
                s.append(";\n");
                proof {
                    assert(entry.1@.take(t + 1).drop_last() =~= entry.1@.take(t as int));
                    assert(entry.1@.take(t + 1).last() == entry.1@[t as int]);
                    assert(s@ =~= inner_done + dot::graph_edge_lines_for(
                        key,
                        entry.1@.take(t + 1),
                    ));
                }
                t += 1;
            }
            proof {
                assert(entry.1@.take(entry.1@.len() as int) =~= entry.1@);
                assert(eview.take(j + 1).drop_last() =~= eview.take(j as int));
                assert(eview.take(j + 1).last() == eview[j as int]);
                assert(eview[j as int] == ((key, entry.1@)));
                assert(s@ =~= mid + dot::graph_edge_section(eview.take(j + 1)));
            }
            j += 1;
        }
        proof {
            assert(eview.take(froms@.len() as int) =~= eview);
        }
        s.append("\n}");
        proof {
            assert(s@ =~= dot::graph_dot_text(nview, eview));
            assert(model::covers(self.nodes_view(), nview));
            assert(model::covers(model::out_map(self.log()), eview));
        }
        s
    }
}

impl Default for Graph {
    /// An empty graph, as [`Graph::new`] builds it.
    fn default() -> (r: Graph)
        ensures
            r.wf(),
            r.nodes_view() == model::no_nodes(),
            r.log() == Seq::<EdgeRec>::empty(),
    {
        Graph::new()
    }
}

/// Wrap the raw `(edge id, peer key)` pairs of a stored adjacency list into
/// the public [`EdgeId`] form, keeping their order.
pub(crate) fn wrap_entries(raw: Vec<(u64, u64)>) -> (r: Vec<(EdgeId, u64)>)
    ensures
        r@ == model::wrap_ids(raw@),
{
    let mut v: Vec<(EdgeId, u64)> = Vec::new();
    let mut i: usize = 0;
    while i < raw.len()
        invariant
            0 <= i <= raw.len(),
            v@.len() == i,
            forall|j: int| 0 <= j < i ==> v@[j] == ((EdgeId(raw@[j].0), raw@[j].1)),
        decreases raw.len() - i,
    {
        let p = raw[i];
        v.push((EdgeId(p.0), p.1));
        i += 1;
    }
    proof {
        assert(v@ =~= model::wrap_ids(raw@));
    }
    v
}

} // verus!
