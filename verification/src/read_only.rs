//! The immutable snapshot of a graph store.
//!
//! A [`ReadOnlyGraph`] is produced once per store, by
//! [`crate::Graph::into_read_only`], which consumes the mutable store; it
//! answers every read-only query with no further synchronization cost, and
//! offers no mutation.
use vstd::prelude::*;
use vstd::pervasive::unreached;
use vstd::multiset::Multiset;

use std::collections::hash_map::RandomState;
use std::hash::BuildHasherDefault;

use dashmap::ReadOnlyView;
use nohash_hasher::NoHashHasher;

use crate::model;
use crate::model::EdgeRec;
use crate::sync_map;
use crate::EdgeId;

verus! {

broadcast use vstd::seq_lib::group_to_multiset_ensures;

/// An immutable graph view: the four maps of the store it was frozen from,
/// each in its read-only form.
pub struct ReadOnlyGraph {
    pub(crate) nodes: ReadOnlyView<u64, String, RandomState>,
    pub(crate) edges: ReadOnlyView<u64, String, BuildHasherDefault<NoHashHasher<u64>>>,
    pub(crate) to: ReadOnlyView<u64, Vec<(u64, u64)>, RandomState>,
    pub(crate) from: ReadOnlyView<u64, Vec<(u64, u64)>, RandomState>,
    pub(crate) edge_hist: Ghost<Seq<EdgeRec>>,
}

impl ReadOnlyGraph {
    /// The node map of the snapshot: key to payload.
    pub open(crate) spec fn nodes_view(self) -> Map<u64, Seq<char>> {
        sync_map::ro_node_view(self.nodes)
    }

    /// The edge log of the snapshot, as the store recorded it: one record
    /// per edge, in creation order; an edge's identifier is its position.
    pub open(crate) spec fn log(self) -> Seq<EdgeRec> {
        self.edge_hist@
    }

    /// Well-formedness, inherited from the store: the frozen maps agree
    /// with the model and every edge endpoint names a stored node.
    pub open(crate) spec fn wf(self) -> bool {
        &&& self.nodes_view().dom().finite()
        &&& sync_map::ro_edge_view(self.edges) == model::edge_payloads(self.log())
        &&& sync_map::ro_adj_view(self.from) == model::out_map(self.log())
        &&& sync_map::ro_adj_view(self.to) == model::in_map(self.log())
        &&& self.log().len() <= u64::MAX
        &&& forall|i: int|
            0 <= i < self.log().len() ==> self.nodes_view().dom().contains(
                (#[trigger] self.log()[i]).src,
            ) && self.nodes_view().dom().contains(self.log()[i].dst)
    }

    /// Whether the snapshot holds no nodes.
    pub fn is_empty(&self) -> (r: bool)
        requires
            self.wf(),
        ensures
            r <==> self.nodes_view().dom().len() == 0,
    {
        self.len() == 0
    }

    /// The number of nodes in the snapshot.
    pub fn len(&self) -> (r: usize)
        requires
            self.wf(),
        ensures
            r == self.nodes_view().dom().len(),
    {
        sync_map::ro_node_len(&self.nodes)
    }

    /// Whether a node is stored under `key`.
    pub fn has_node(&self, key: u64) -> (r: bool)
        requires
            self.wf(),
        ensures
            r == self.nodes_view().dom().contains(key),
    {
        sync_map::ro_node_contains(&self.nodes, key)
    }

    /// The payload of the node stored under `key`, if any.
    pub fn get_node(&self, key: u64) -> (r: Option<String>)
        requires
            self.wf(),
        ensures
            match r {
                Some(v) => self.nodes_view().dom().contains(key) && v@ == self.nodes_view()[key],
                None => !self.nodes_view().dom().contains(key),
            },
    {
        sync_map::ro_node_get(&self.nodes, key)
    }

    /// The payload of the edge with the given identifier, if any.
    pub fn get_edge(&self, key: EdgeId) -> (r: Option<String>)
        requires
            self.wf(),
        ensures
            match r {
                Some(v) => (key.0 as nat) < self.log().len() && v@ == self.log()[
                    key.0 as int
                ].payload,
                None => (key.0 as nat) >= self.log().len(),
            },
    {
        sync_map::ro_edge_get(&self.edges, key.0)
    }

    /// The ordered outgoing adjacency list of `key`, or absent if no edge
    /// leaves it.
    pub fn edge_ids_from(&self, key: u64) -> (r: Option<Vec<(EdgeId, u64)>>)
        requires
            self.wf(),
        ensures
            match r {
                Some(v) => model::out_of(self.log(), key).len() > 0 && v@ == model::wrap_ids(
                    model::out_of(self.log(), key),
                ),
                None => model::out_of(self.log(), key).len() == 0,
            },
    {
        match sync_map::ro_adj_get(&self.from, key) {
            None => None,
            Some(raw) => Some(crate::wrap_entries(raw)),
        }
    }

    /// The ordered incoming adjacency list of `key`, or absent if no edge
    /// arrives at it.
    pub fn edge_ids_to(&self, key: u64) -> (r: Option<Vec<(EdgeId, u64)>>)
        requires
            self.wf(),
        ensures
            match r {
                Some(v) => model::in_of(self.log(), key).len() > 0 && v@ == model::wrap_ids(
                    model::in_of(self.log(), key),
                ),
                None => model::in_of(self.log(), key).len() == 0,
            },
    {
        match sync_map::ro_adj_get(&self.to, key) {
            None => None,
            Some(raw) => Some(crate::wrap_entries(raw)),
        }
    }

    /// The `(source payload, edge payload, destination payload)` triple of
    /// every edge leaving `key`, in the order those edges were added; absent
    /// if `key` is not a node or no edge leaves it.
    pub fn iter_edges_from(&self, key: u64) -> (r: Option<Vec<(String, String, String)>>)
        requires
            self.wf(),
        ensures
            match r {
                Some(v) => self.nodes_view().dom().contains(key) && model::out_of(
                    self.log(),
                    key,
                ).len() > 0 && model::triples_view(v@) == model::tri_seq(
                    self.nodes_view(),
                    self.log(),
                    key,
                ),
                None => !self.nodes_view().dom().contains(key) || model::out_of(
                    self.log(),
                    key,
                ).len() == 0,
            },
    {
        let src_payload = match sync_map::ro_node_get(&self.nodes, key) {
            None => {
                return None;
            },
            Some(p) => p,
        };
        let list = match sync_map::ro_adj_get(&self.from, key) {
            None => {
                return None;
            },
            Some(l) => l,
        };
        Some(self.triples_of_list(key, src_payload, list))
    }

    /// Walk one outgoing adjacency list and build the triple of each entry.
    fn triples_of_list(&self, key: u64, src_payload: String, list: Vec<(u64, u64)>) -> (r: Vec<
        (String, String, String),
    >)
        requires
            self.wf(),
            self.nodes_view().dom().contains(key),
            src_payload@ == self.nodes_view()[key],
            list@ == model::out_of(self.log(), key),
        ensures
            model::triples_view(r@) == model::tri_seq(self.nodes_view(), self.log(), key),
    {
        proof {
            model::lemma_out_of_entries(self.log(), key);
        }
        let mut v: Vec<(String, String, String)> = Vec::new();
        let mut j: usize = 0;
        while j < list.len()
            invariant
                self.wf(),
                self.nodes_view().dom().contains(key),
                src_payload@ == self.nodes_view()[key],
                list@ == model::out_of(self.log(), key),
                forall|t: int|
                    0 <= t < list@.len() ==> ((#[trigger] list@[t]).0 as nat) < self.log().len()
                        && self.log()[list@[t].0 as int].src == key && self.log()[
                        list@[t].0 as int
                    ].dst == list@[t].1,
                0 <= j <= list@.len(),
                v@.len() == j,
                forall|t: int|
                    0 <= t < j ==> ((#[trigger] v@[t]).0@, v@[t].1@, v@[t].2@) == model::tri_seq(
                        self.nodes_view(),
                        self.log(),
                        key,
                    )[t],
            decreases list@.len() - j,
        {
            let id: u64 = list[j].0;
            let dst: u64 = list[j].1;
            let edge_payload = match sync_map::ro_edge_get(&self.edges, id) {
                Some(e) => e,
                None => unreached(),
            };
            let dst_payload = match sync_map::ro_node_get(&self.nodes, dst) {
                Some(p) => p,
                None => unreached(),
            };
            v.push((src_payload.clone(), edge_payload, dst_payload));
            j += 1;
        }
        proof {
            assert(model::triples_view(v@) =~= model::tri_seq(self.nodes_view(), self.log(), key));
        }
        v
    }

    /// Every stored node as a `(key, payload)` pair, each exactly once, in
    /// an unspecified order.
    pub fn iter_nodes(&self) -> (r: Vec<(u64, String)>)
        requires
            self.wf(),
        ensures
            model::covers(self.nodes_view(), model::pairs_view(r@)),
    {
        sync_map::ro_node_pairs(&self.nodes)
    }

    /// The `(source payload, edge payload, destination payload)` triple of
    /// every edge of the snapshot, each exactly once: the node keys are
    /// visited in some unspecified order, and each visited node's outgoing
    /// edges appear consecutively, in the order they were added.
    pub fn iter(&self) -> (r: Vec<(String, String, String)>)
        requires
            self.wf(),
        ensures
            r@.len() == self.log().len(),
            model::triples_view(r@).to_multiset() == model::all_triples(
                self.nodes_view(),
                self.log(),
            ).to_multiset(),
            exists|ks: Seq<u64>|
                model::enumerates(self.nodes_view().dom(), ks) && model::triples_view(r@)
                    == model::tri_concat(self.nodes_view(), self.log(), ks),
    {
        let pairs = self.iter_nodes();
        let ghost pview = model::pairs_view(pairs@);
        let ghost kseq = pview.map_values(|p: (u64, Seq<char>)| p.0);
        let mut result: Vec<(String, String, String)> = Vec::new();
        proof {
            assert(pview.take(0) =~= Seq::<(u64, Seq<char>)>::empty());
            assert(model::keyset(pview.take(0)) =~= Set::<u64>::empty());
            model::lemma_tri_in_empty(self.nodes_view(), self.log());
            assert(model::triples_view(result@) =~= Seq::<
                (Seq<char>, Seq<char>, Seq<char>),
            >::empty());
            assert(kseq.take(0) =~= Seq::<u64>::empty());
            assert(model::tri_concat(self.nodes_view(), self.log(), kseq.take(0)) =~= Seq::<
                (Seq<char>, Seq<char>, Seq<char>),
            >::empty());
        }
        let mut i: usize = 0;
        while i < pairs.len()
            invariant
                self.wf(),
                model::covers(self.nodes_view(), pview),
                pview == model::pairs_view(pairs@),
                kseq == pview.map_values(|p: (u64, Seq<char>)| p.0),
                pview.len() == pairs@.len(),
                kseq.len() == pview.len(),
                0 <= i <= pairs@.len(),
                model::triples_view(result@).to_multiset() == model::tri_in(
                    self.nodes_view(),
                    self.log(),
                    model::keyset(pview.take(i as int)),
                ),
                model::triples_view(result@) == model::tri_concat(
                    self.nodes_view(),
                    self.log(),
                    kseq.take(i as int),
                ),
            decreases pairs@.len() - i,
        {
            let key: u64 = pairs[i].0;
            let ghost s0 = model::keyset(pview.take(i as int));
            proof {
                assert(pview[i as int].0 == key);
                assert(kseq[i as int] == key);
                assert(kseq.take(i + 1).drop_last() =~= kseq.take(i as int));
                assert(kseq.take(i + 1).last() == key);
                assert(!s0.contains(key)) by {
                    if s0.contains(key) {
                        let t = choose|t: int|
                            0 <= t < pview.take(i as int).len() && (#[trigger] pview.take(
                                i as int,
                            )[t]).0 == key;
                        assert(pview[t].0 == pview[i as int].0);
                    }
                }
                model::lemma_keyset_take(pview, i as int);
                model::lemma_tri_in_insert(self.nodes_view(), self.log(), s0, key);
                model::lemma_tri_seq_multiset(self.nodes_view(), self.log(), key);
            }
            match self.iter_edges_from(key) {
                None => {
                    proof {
                        assert(self.nodes_view().dom().contains(key));
                        assert(model::tri_seq(self.nodes_view(), self.log(), key) =~= Seq::<
                            (Seq<char>, Seq<char>, Seq<char>),
                        >::empty());
                        assert(model::out_tri(self.nodes_view(), self.log(), key)
                            =~= Multiset::<(Seq<char>, Seq<char>, Seq<char>)>::empty());
                        assert(model::tri_in(self.nodes_view(), self.log(), s0).add(
                            model::out_tri(self.nodes_view(), self.log(), key),
                        ) =~= model::tri_in(self.nodes_view(), self.log(), s0));
                        assert(model::tri_concat(self.nodes_view(), self.log(), kseq.take(i + 1))
                            =~= model::tri_concat(
                            self.nodes_view(),
                            self.log(),
                            kseq.take(i as int),
                        ));
                    }
                },
                Some(tris) => {
                    let ghost before = result@;
                    extend_triples(&mut result, tris);
                    proof {
                        model::lemma_triples_view_add(before, tris@);
                        model::lemma_to_multiset_add(
                            model::triples_view(before),
                            model::triples_view(tris@),
                        );
                        assert(model::triples_view(result@) == model::tri_concat(
                            self.nodes_view(),
                            self.log(),
                            kseq.take(i as int),
                        ) + model::tri_seq(self.nodes_view(), self.log(), key));
                    }
                },
            }
            i += 1;
        }
        proof {
            assert(pview.take(pairs@.len() as int) =~= pview);
            assert(kseq.take(pairs@.len() as int) =~= kseq);
            assert forall|i2: int, j2: int| 0 <= i2 < j2 < kseq.len() implies kseq[i2]
                != kseq[j2] by {
                assert(kseq[i2] == pview[i2].0);
                assert(kseq[j2] == pview[j2].0);
            }
            assert forall|i2: int| 0 <= i2 < kseq.len() implies self.nodes_view().dom().contains(
                kseq[i2],
            ) by {
                assert(kseq[i2] == pview[i2].0);
            }
            assert forall|k: u64| self.nodes_view().dom().contains(k) implies exists|t: int|
                0 <= t < kseq.len() && kseq[t] == k by {
                let t = choose|t: int| 0 <= t < pview.len() && (#[trigger] pview[t]).0 == k;
                assert(kseq[t] == k);
            }
            assert(model::enumerates(self.nodes_view().dom(), kseq));
            assert(model::triples_view(result@) == model::tri_concat(
                self.nodes_view(),
                self.log(),
                kseq,
            ));
            assert(model::keyset(pview) =~= self.nodes_view().dom()) by {
                assert forall|k: u64| model::keyset(pview).contains(k)
                    implies self.nodes_view().dom().contains(k) by {
                    let t = choose|t: int| 0 <= t < pview.len() && (#[trigger] pview[t]).0 == k;
                }
            }
            model::lemma_tri_in_full(self.nodes_view(), self.log(), self.nodes_view().dom());
            assert(model::all_triples(self.nodes_view(), self.log()).len() == self.log().len());
            assert(model::triples_view(result@).len() == result@.len());
            assert(model::triples_view(result@).to_multiset().len() == model::triples_view(
                result@,
            ).len());
            assert(model::all_triples(self.nodes_view(), self.log()).to_multiset().len()
                == model::all_triples(self.nodes_view(), self.log()).len());
        }
        result
    }

    /// The payload of the node stored under `key`.  Indexing by a key that
    /// was never inserted is a contract violation and aborts with a
    /// diagnostic; it never returns a default payload.  For an
    /// absent-returning lookup, use [`ReadOnlyGraph::get_node`].
    pub fn index(&self, key: u64) -> (r: String)
        requires
            self.wf(),
            self.nodes_view().dom().contains(key),
        ensures
            r@ == self.nodes_view()[key],
    {
        match sync_map::ro_node_get(&self.nodes, key) {
            Some(v) => v,
            None => unreached(),
        }
    }
}

/// Freezing preserves the whole graph.  A snapshot whose model equals the
/// store's — which is what [`crate::Graph::into_read_only`] ensures —
/// reports the same node count, holds exactly the same nodes, answers every
/// outgoing and incoming adjacency lookup with the same ordered list, and
/// holds the same payload under every edge identifier.
pub proof fn lemma_freeze_preserves_queries(g: crate::Graph, s: ReadOnlyGraph)
    requires
        s.nodes_view() == g.nodes_view(),
        s.log() == g.log(),
    ensures
        s.nodes_view().dom().len() == g.nodes_view().dom().len(),
        forall|k: u64|
            #[trigger] s.nodes_view().dom().contains(k) == g.nodes_view().dom().contains(k),
        forall|k: u64| #[trigger] model::out_of(s.log(), k) == model::out_of(g.log(), k),
        forall|k: u64| #[trigger] model::in_of(s.log(), k) == model::in_of(g.log(), k),
        model::edge_payloads(s.log()) == model::edge_payloads(g.log()),
{
}

/// Append a clone of every triple of `src` to `dst`, in order.
fn extend_triples(dst: &mut Vec<(String, String, String)>, src: Vec<(String, String, String)>)
    ensures
        model::triples_view(final(dst)@) == model::triples_view(old(dst)@ + src@),
{
    let mut j: usize = 0;
    while j < src.len()
        invariant
            0 <= j <= src@.len(),
            dst@.len() == old(dst)@.len() + j,
            forall|t: int| 0 <= t < old(dst)@.len() ==> (#[trigger] dst@[t]) == old(dst)@[t],
            forall|t: int|
                0 <= t < j ==> ((#[trigger] dst@[old(dst)@.len() + t]).0@, dst@[old(dst)@.len()
                    + t].1@, dst@[old(dst)@.len() + t].2@) == (src@[t].0@, src@[t].1@, src@[t].2@),
        decreases src@.len() - j,
    {
        let t = &src[j];
        dst.push((t.0.clone(), t.1.clone(), t.2.clone()));
        j += 1;
    }
    proof {
        let combined = old(dst)@ + src@;
        assert(dst@.len() == combined.len());
        let n0 = old(dst)@.len() as int;
        assert forall|t: int|
            0 <= t < combined.len() implies model::triples_view(dst@)[t] == model::triples_view(
            combined,
        )[t] by {
            assert(model::triples_view(dst@)[t] == ((dst@[t].0@, dst@[t].1@, dst@[t].2@)));
            assert(model::triples_view(combined)[t] == ((combined[t].0@, combined[t].1@,
            combined[t].2@)));
            if t < n0 {
                assert(combined[t] == old(dst)@[t]);
                assert(dst@[t] == old(dst)@[t]);
            } else {
                let u = t - n0;
                assert(combined[t] == src@[u]);
                assert((dst@[n0 + u].0@, dst@[n0 + u].1@, dst@[n0 + u].2@) == ((src@[u].0@,
                src@[u].1@, src@[u].2@)));
                assert(dst@[t] == dst@[n0 + u]);
            }
        }
        assert(model::triples_view(dst@) =~= model::triples_view(combined));
    }
}

} // verus!
