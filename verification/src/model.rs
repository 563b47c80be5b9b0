//! The mathematical model of the graph store.
//!
//! A store is modelled by a map from node key to node payload together with a
//! log of edge records in creation order.  An edge's identifier is its
//! position in that log, so identifiers are unique and monotonically
//! increasing from zero.  The adjacency indices, the edge-payload map and the
//! triple sequences that iteration yields are all defined as functions of the
//! log, and the lemmas below relate one edge creation to each of them.
use vstd::prelude::*;
use vstd::multiset::Multiset;
use vstd::seq_lib::*;

use crate::EdgeId;

verus! {

broadcast use vstd::seq_lib::group_to_multiset_ensures;

/// One edge of the store: its source key, destination key and payload.
/// The edge's identifier is its index in the log.
pub ghost struct EdgeRec {
    pub src: u64,
    pub dst: u64,
    pub payload: Seq<char>,
}

/// The node map of a store that holds no node.
pub open spec fn no_nodes() -> Map<u64, Seq<char>> {
    Map::empty()
}

/// The edge-payload map of a store that holds no edge.
pub open spec fn no_edges() -> Map<u64, Seq<char>> {
    Map::empty()
}

/// An adjacency index that holds no entry.
pub open spec fn no_adj() -> Map<u64, Seq<(u64, u64)>> {
    Map::empty()
}

/// The outgoing adjacency list of key `k`: one `(edge id, destination)` pair
/// for every edge of the log whose source is `k`, in creation order.
pub open spec fn out_of(log: Seq<EdgeRec>, k: u64) -> Seq<(u64, u64)>
    decreases log.len(),
{
    if log.len() == 0 {
        Seq::empty()
    } else {
        let prefix = out_of(log.drop_last(), k);
        if log.last().src == k {
            prefix.push(((log.len() - 1) as u64, log.last().dst))
        } else {
            prefix
        }
    }
}

/// The incoming adjacency list of key `k`: one `(edge id, source)` pair for
/// every edge of the log whose destination is `k`, in creation order.
pub open spec fn in_of(log: Seq<EdgeRec>, k: u64) -> Seq<(u64, u64)>
    decreases log.len(),
{
    if log.len() == 0 {
        Seq::empty()
    } else {
        let prefix = in_of(log.drop_last(), k);
        if log.last().dst == k {
            prefix.push(((log.len() - 1) as u64, log.last().src))
        } else {
            prefix
        }
    }
}

/// The edge-payload map: each identifier below the log's length maps to the
/// payload of the record at that position.
pub open spec fn edge_payloads(log: Seq<EdgeRec>) -> Map<u64, Seq<char>> {
    Map::new(|i: u64| (i as nat) < log.len(), |i: u64| log[i as int].payload)
}

/// The outgoing index as a map: a key is present exactly when some edge
/// leaves it, and then maps to its outgoing adjacency list.
pub open spec fn out_map(log: Seq<EdgeRec>) -> Map<u64, Seq<(u64, u64)>> {
    Map::new(|k: u64| out_of(log, k).len() > 0, |k: u64| out_of(log, k))
}

/// The incoming index as a map, built like `out_map`.
pub open spec fn in_map(log: Seq<EdgeRec>) -> Map<u64, Seq<(u64, u64)>> {
    Map::new(|k: u64| in_of(log, k).len() > 0, |k: u64| in_of(log, k))
}

/// `pairs` enumerates the map `m` exactly: its keys are distinct, each pair
/// is an entry of `m`, and every key of `m` occurs.  The order is arbitrary.
pub open spec fn covers<A>(m: Map<u64, A>, pairs: Seq<(u64, A)>) -> bool {
    &&& forall|i: int, j: int|
        0 <= i < j < pairs.len() ==> (#[trigger] pairs[i]).0 != (#[trigger] pairs[j]).0
    &&& forall|i: int|
        0 <= i < pairs.len() ==> m.dom().contains((#[trigger] pairs[i]).0) && m[pairs[i].0]
            == pairs[i].1
    &&& forall|k: u64|
        m.dom().contains(k) ==> exists|i: int| 0 <= i < pairs.len() && (#[trigger] pairs[i]).0 == k
}

/// The abstract value of a vector of key/payload pairs.
pub open spec fn pairs_view(v: Seq<(u64, String)>) -> Seq<(u64, Seq<char>)> {
    v.map_values(|p: (u64, String)| (p.0, p.1@))
}

/// The abstract value of a vector of key/adjacency-list pairs.
pub open spec fn adj_pairs_view(v: Seq<(u64, Vec<(u64, u64)>)>) -> Seq<(u64, Seq<(u64, u64)>)> {
    v.map_values(|p: (u64, Vec<(u64, u64)>)| (p.0, p.1@))
}

/// The abstract value of a vector of payload triples.
pub open spec fn triples_view(v: Seq<(String, String, String)>) -> Seq<
    (Seq<char>, Seq<char>, Seq<char>),
> {
    v.map_values(|t: (String, String, String)| (t.0@, t.1@, t.2@))
}

/// The adjacency entries of the public interface, with wrapped identifiers.
pub open spec fn wrap_ids(s: Seq<(u64, u64)>) -> Seq<(EdgeId, u64)> {
    s.map_values(|p: (u64, u64)| (EdgeId(p.0), p.1))
}

/// The `(source payload, edge payload, destination payload)` triple of one
/// edge record.
pub open spec fn tri(nodes: Map<u64, Seq<char>>, rec: EdgeRec) -> (Seq<char>, Seq<char>, Seq<char>) {
    (nodes[rec.src], rec.payload, nodes[rec.dst])
}

/// The triples of every edge of the log, in creation order.
pub open spec fn all_triples(nodes: Map<u64, Seq<char>>, log: Seq<EdgeRec>) -> Seq<
    (Seq<char>, Seq<char>, Seq<char>),
> {
    log.map_values(|rec: EdgeRec| tri(nodes, rec))
}

/// The triples of the edges leaving key `k`, in creation order: what
/// iterating the outgoing adjacency of `k` yields.
pub open spec fn tri_seq(nodes: Map<u64, Seq<char>>, log: Seq<EdgeRec>, k: u64) -> Seq<
    (Seq<char>, Seq<char>, Seq<char>),
> {
    out_of(log, k).map_values(|e: (u64, u64)| (nodes[k], log[e.0 as int].payload, nodes[e.1]))
}

/// The multiset of triples of the edges whose source lies in the key set `s`.
pub open spec fn tri_in(nodes: Map<u64, Seq<char>>, log: Seq<EdgeRec>, s: Set<u64>) -> Multiset<
    (Seq<char>, Seq<char>, Seq<char>),
>
    decreases log.len(),
{
    if log.len() == 0 {
        Multiset::empty()
    } else {
        let rest = tri_in(nodes, log.drop_last(), s);
        if s.contains(log.last().src) {
            rest.insert(tri(nodes, log.last()))
        } else {
            rest
        }
    }
}

/// The multiset of triples of the edges leaving key `k`.
pub open spec fn out_tri(nodes: Map<u64, Seq<char>>, log: Seq<EdgeRec>, k: u64) -> Multiset<
    (Seq<char>, Seq<char>, Seq<char>),
>
    decreases log.len(),
{
    if log.len() == 0 {
        Multiset::empty()
    } else {
        let rest = out_tri(nodes, log.drop_last(), k);
        if log.last().src == k {
            rest.insert(tri(nodes, log.last()))
        } else {
            rest
        }
    }
}

/// `ks` lists every key of the set `s` exactly once, in some order.
pub open spec fn enumerates(s: Set<u64>, ks: Seq<u64>) -> bool {
    &&& forall|i: int, j: int| 0 <= i < j < ks.len() ==> ks[i] != ks[j]
    &&& forall|i: int| 0 <= i < ks.len() ==> s.contains(#[trigger] ks[i])
    &&& forall|k: u64| s.contains(k) ==> exists|i: int| 0 <= i < ks.len() && ks[i] == k
}

/// The triples yielded by visiting the keys of `ks` in turn and walking
/// each one's outgoing adjacency in creation order.
pub open spec fn tri_concat(nodes: Map<u64, Seq<char>>, log: Seq<EdgeRec>, ks: Seq<u64>) -> Seq<
    (Seq<char>, Seq<char>, Seq<char>),
>
    decreases ks.len(),
{
    if ks.len() == 0 {
        Seq::empty()
    } else {
        tri_concat(nodes, log, ks.drop_last()) + tri_seq(nodes, log, ks.last())
    }
}

/// The set of keys that occur in a pair sequence.
pub open spec fn keyset<A>(pairs: Seq<(u64, A)>) -> Set<u64> {
    Set::new(|k: u64| exists|i: int| 0 <= i < pairs.len() && (#[trigger] pairs[i]).0 == k)
}

/// Appending one record to the log extends the outgoing adjacency of its
/// source by one entry, whose identifier is the old log length, and leaves
/// the adjacency of every other key unchanged.
pub proof fn lemma_out_of_push(log: Seq<EdgeRec>, rec: EdgeRec, k: u64)
    requires
        log.len() < u64::MAX,
    ensures
        out_of(log.push(rec), k) == if rec.src == k {
            out_of(log, k).push((log.len() as u64, rec.dst))
        } else {
            out_of(log, k)
        },
{
    assert(log.push(rec).drop_last() =~= log);
    assert(log.push(rec).last() == rec);
}

/// The incoming counterpart of `lemma_out_of_push`.
pub proof fn lemma_in_of_push(log: Seq<EdgeRec>, rec: EdgeRec, k: u64)
    requires
        log.len() < u64::MAX,
    ensures
        in_of(log.push(rec), k) == if rec.dst == k {
            in_of(log, k).push((log.len() as u64, rec.src))
        } else {
            in_of(log, k)
        },
{
    assert(log.push(rec).drop_last() =~= log);
    assert(log.push(rec).last() == rec);
}

/// Appending one record adds exactly one entry, under the fresh identifier,
/// to the edge-payload map.
pub proof fn lemma_edge_payloads_push(log: Seq<EdgeRec>, rec: EdgeRec)
    requires
        log.len() < u64::MAX,
    ensures
        edge_payloads(log.push(rec)) == edge_payloads(log).insert(log.len() as u64, rec.payload),
{
    let lhs = edge_payloads(log.push(rec));
    let rhs = edge_payloads(log).insert(log.len() as u64, rec.payload);
    assert forall|i: u64| lhs.dom().contains(i) implies rhs.dom().contains(i) && lhs[i] == rhs[i] by {
        if (i as nat) < log.len() {
            assert(log.push(rec)[i as int] == log[i as int]);
        } else {
            assert(i == log.len() as u64);
            assert(log.push(rec)[i as int] == rec);
        }
    }
    assert forall|i: u64| rhs.dom().contains(i) implies lhs.dom().contains(i) by {}
    assert(lhs =~= rhs);
}

/// `lemma_out_of_push` lifted to the whole outgoing index map.
pub proof fn lemma_out_map_push(log: Seq<EdgeRec>, rec: EdgeRec)
    requires
        log.len() < u64::MAX,
    ensures
        out_map(log.push(rec)) == out_map(log).insert(
            rec.src,
            out_of(log, rec.src).push((log.len() as u64, rec.dst)),
        ),
{
    assert forall|k: u64| true implies out_of(log.push(rec), k) == if rec.src == k {
        out_of(log, k).push((log.len() as u64, rec.dst))
    } else {
        out_of(log, k)
    } by {
        lemma_out_of_push(log, rec, k);
    }
    assert(out_map(log.push(rec)) =~= out_map(log).insert(
        rec.src,
        out_of(log, rec.src).push((log.len() as u64, rec.dst)),
    ));
}

/// `lemma_in_of_push` lifted to the whole incoming index map.
pub proof fn lemma_in_map_push(log: Seq<EdgeRec>, rec: EdgeRec)
    requires
        log.len() < u64::MAX,
    ensures
        in_map(log.push(rec)) == in_map(log).insert(
            rec.dst,
            in_of(log, rec.dst).push((log.len() as u64, rec.src)),
        ),
{
    assert forall|k: u64| true implies in_of(log.push(rec), k) == if rec.dst == k {
        in_of(log, k).push((log.len() as u64, rec.src))
    } else {
        in_of(log, k)
    } by {
        lemma_in_of_push(log, rec, k);
    }
    assert(in_map(log.push(rec)) =~= in_map(log).insert(
        rec.dst,
        in_of(log, rec.dst).push((log.len() as u64, rec.src)),
    ));
}

/// Every entry of an outgoing adjacency list names a live edge: its
/// identifier indexes the log, the record there leaves `k`, and the entry's
/// peer is that record's destination.  Identifiers are strictly increasing
/// along the list.
pub proof fn lemma_out_of_entries(log: Seq<EdgeRec>, k: u64)
    requires
        log.len() <= u64::MAX,
    ensures
        forall|i: int|
            0 <= i < out_of(log, k).len() ==> ((#[trigger] out_of(log, k)[i]).0 as nat) < log.len()
                && log[out_of(log, k)[i].0 as int].src == k && log[out_of(log, k)[i].0 as int].dst
                == out_of(log, k)[i].1,
        forall|i: int, j: int|
            0 <= i < j < out_of(log, k).len() ==> (#[trigger] out_of(log, k)[i]).0 < (
            #[trigger] out_of(log, k)[j]).0,
    decreases log.len(),
{
    if log.len() > 0 {
        let l0 = log.drop_last();
        lemma_out_of_entries(l0, k);
        assert(forall|i: int| 0 <= i < l0.len() ==> l0[i] == log[i]);
        let prefix = out_of(l0, k);
        if log.last().src == k {
            assert(out_of(log, k) == prefix.push(((log.len() - 1) as u64, log.last().dst)));
            assert(log[log.len() - 1] == log.last());
        } else {
            assert(out_of(log, k) == prefix);
        }
    }
}

/// The incoming counterpart of `lemma_out_of_entries`.
pub proof fn lemma_in_of_entries(log: Seq<EdgeRec>, k: u64)
    requires
        log.len() <= u64::MAX,
    ensures
        forall|i: int|
            0 <= i < in_of(log, k).len() ==> ((#[trigger] in_of(log, k)[i]).0 as nat) < log.len()
                && log[in_of(log, k)[i].0 as int].dst == k && log[in_of(log, k)[i].0 as int].src
                == in_of(log, k)[i].1,
        forall|i: int, j: int|
            0 <= i < j < in_of(log, k).len() ==> (#[trigger] in_of(log, k)[i]).0 < (
            #[trigger] in_of(log, k)[j]).0,
    decreases log.len(),
{
    if log.len() > 0 {
        let l0 = log.drop_last();
        lemma_in_of_entries(l0, k);
        assert(forall|i: int| 0 <= i < l0.len() ==> l0[i] == log[i]);
        let prefix = in_of(l0, k);
        if log.last().dst == k {
            assert(in_of(log, k) == prefix.push(((log.len() - 1) as u64, log.last().src)));
            assert(log[log.len() - 1] == log.last());
        } else {
            assert(in_of(log, k) == prefix);
        }
    }
}

/// Mapping a function over a sequence commutes with `push`.
pub proof fn lemma_map_values_push<A, B>(s: Seq<A>, f: spec_fn(A) -> B, x: A)
    ensures
        s.push(x).map_values(f) == s.map_values(f).push(f(x)),
{
    assert(s.push(x).map_values(f) =~= s.map_values(f).push(f(x)));
}

/// Enlarging the source-key set by one key adds exactly the triples of the
/// edges leaving that key.
pub proof fn lemma_tri_in_insert(nodes: Map<u64, Seq<char>>, log: Seq<EdgeRec>, s: Set<u64>, k: u64)
    requires
        !s.contains(k),
    ensures
        tri_in(nodes, log, s.insert(k)) == tri_in(nodes, log, s).add(out_tri(nodes, log, k)),
    decreases log.len(),
{
    if log.len() == 0 {
        assert(tri_in(nodes, log, s.insert(k)) =~= tri_in(nodes, log, s).add(
            out_tri(nodes, log, k),
        ));
    } else {
        let l0 = log.drop_last();
        lemma_tri_in_insert(nodes, l0, s, k);
        let t = tri(nodes, log.last());
        if log.last().src == k {
            assert(tri_in(nodes, log, s.insert(k)) == tri_in(nodes, l0, s.insert(k)).insert(t));
            assert(tri_in(nodes, l0, s).add(out_tri(nodes, l0, k)).insert(t) =~= tri_in(
                nodes,
                l0,
                s,
            ).add(out_tri(nodes, l0, k).insert(t)));
        } else if s.contains(log.last().src) {
            assert(tri_in(nodes, log, s.insert(k)) == tri_in(nodes, l0, s.insert(k)).insert(t));
            assert(tri_in(nodes, l0, s).add(out_tri(nodes, l0, k)).insert(t) =~= tri_in(
                nodes,
                l0,
                s,
            ).insert(t).add(out_tri(nodes, l0, k)));
        } else {
            assert(tri_in(nodes, log, s.insert(k)) == tri_in(nodes, l0, s.insert(k)));
        }
    }
}

/// Once the key set holds every source of the log, the triples gathered by
/// source are exactly the triples of the whole log.
pub proof fn lemma_tri_in_full(nodes: Map<u64, Seq<char>>, log: Seq<EdgeRec>, s: Set<u64>)
    requires
        forall|i: int| 0 <= i < log.len() ==> s.contains((#[trigger] log[i]).src),
    ensures
        tri_in(nodes, log, s) == all_triples(nodes, log).to_multiset(),
    decreases log.len(),
{
    if log.len() == 0 {
        assert(all_triples(nodes, log) =~= Seq::<(Seq<char>, Seq<char>, Seq<char>)>::empty());
        assert(tri_in(nodes, log, s) =~= all_triples(nodes, log).to_multiset());
    } else {
        let l0 = log.drop_last();
        assert(forall|i: int| 0 <= i < l0.len() ==> l0[i] == log[i]);
        lemma_tri_in_full(nodes, l0, s);
        assert(s.contains(log[log.len() - 1].src));
        assert(l0.push(log.last()) =~= log);
        lemma_map_values_push(l0, |rec: EdgeRec| tri(nodes, rec), log.last());
        assert(all_triples(nodes, log) == all_triples(nodes, l0).push(tri(nodes, log.last())));
    }
}

/// The triple sequence of one source key, as a multiset, is `out_tri`.
pub proof fn lemma_tri_seq_multiset(nodes: Map<u64, Seq<char>>, log: Seq<EdgeRec>, k: u64)
    requires
        log.len() <= u64::MAX,
    ensures
        tri_seq(nodes, log, k).to_multiset() == out_tri(nodes, log, k),
        tri_seq(nodes, log, k).len() == out_of(log, k).len(),
    decreases log.len(),
{
    let f = |e: (u64, u64)| (nodes[k], log[e.0 as int].payload, nodes[e.1]);
    if log.len() == 0 {
        assert(tri_seq(nodes, log, k) =~= Seq::<(Seq<char>, Seq<char>, Seq<char>)>::empty());
    } else {
        let l0 = log.drop_last();
        lemma_tri_seq_multiset(nodes, l0, k);
        lemma_out_of_entries(l0, k);
        assert(forall|i: int| 0 <= i < l0.len() ==> l0[i] == log[i]);
        let f0 = |e: (u64, u64)| (nodes[k], l0[e.0 as int].payload, nodes[e.1]);
        assert(out_of(l0, k).map_values(f) =~= out_of(l0, k).map_values(f0));
        if log.last().src == k {
            let entry = ((log.len() - 1) as u64, log.last().dst);
            assert(out_of(log, k) == out_of(l0, k).push(entry));
            lemma_map_values_push(out_of(l0, k), f, entry);
            assert(log[entry.0 as int] == log.last());
            assert(f(entry) == tri(nodes, log.last()));
        } else {
            assert(out_of(log, k) == out_of(l0, k));
        }
    }
}

/// With no source key admitted, no triple is gathered.
pub proof fn lemma_tri_in_empty(nodes: Map<u64, Seq<char>>, log: Seq<EdgeRec>)
    ensures
        tri_in(nodes, log, Set::empty()) == Multiset::<(Seq<char>, Seq<char>, Seq<char>)>::empty(),
    decreases log.len(),
{
    if log.len() > 0 {
        lemma_tri_in_empty(nodes, log.drop_last());
    }
}

/// Concatenation of sequences is addition of their multisets.
pub proof fn lemma_to_multiset_add<A>(a: Seq<A>, b: Seq<A>)
    ensures
        (a + b).to_multiset() == a.to_multiset().add(b.to_multiset()),
    decreases b.len(),
{
    if b.len() == 0 {
        assert(a + b =~= a);
        assert(b.to_multiset() =~= Multiset::<A>::empty());
        assert(a.to_multiset().add(b.to_multiset()) =~= a.to_multiset());
    } else {
        let b0 = b.drop_last();
        lemma_to_multiset_add(a, b0);
        assert(a + b =~= (a + b0).push(b.last()));
        assert(b0.push(b.last()) =~= b);
        assert(a.to_multiset().add(b0.to_multiset().insert(b.last())) =~= a.to_multiset().add(
            b0.to_multiset(),
        ).insert(b.last()));
    }
}

/// The abstract value of a concatenation of triple vectors is the
/// concatenation of their abstract values.
pub proof fn lemma_triples_view_add(a: Seq<(String, String, String)>, b: Seq<
    (String, String, String),
>)
    ensures
        triples_view(a + b) == triples_view(a) + triples_view(b),
{
    assert(triples_view(a + b) =~= triples_view(a) + triples_view(b));
}

/// Extending a covering enumeration by its next pair grows the key set by
/// exactly that pair's key.
pub proof fn lemma_keyset_take<A>(pairs: Seq<(u64, A)>, i: int)
    requires
        0 <= i < pairs.len(),
    ensures
        keyset(pairs.take(i + 1)) == keyset(pairs.take(i)).insert(pairs[i].0),
{
    let lhs = keyset(pairs.take(i + 1));
    let rhs = keyset(pairs.take(i)).insert(pairs[i].0);
    assert forall|k: u64| lhs.contains(k) implies rhs.contains(k) by {
        let j = choose|j: int| 0 <= j < pairs.take(i + 1).len() && (#[trigger] pairs.take(
            i + 1,
        )[j]).0 == k;
        if j < i {
            assert(pairs.take(i)[j] == pairs.take(i + 1)[j]);
        }
    }
    assert forall|k: u64| rhs.contains(k) implies lhs.contains(k) by {
        if k == pairs[i].0 {
            assert(pairs.take(i + 1)[i].0 == k);
        } else {
            let j = choose|j: int| 0 <= j < pairs.take(i).len() && (#[trigger] pairs.take(i)[j]).0
                == k;
            assert(pairs.take(i + 1)[j].0 == k);
        }
    }
    assert(lhs =~= rhs);
}

/// Overwrite semantics of node insertion: after storing `v` under `k` the
/// map holds `k`, and holds `v` there.  Together with the contract of
/// `insert`, which reports the value stored just before, this gives the law
/// that each insertion's reported previous value is the payload of the
/// immediately preceding insertion under that key, or absent on the first.
pub proof fn lemma_insert_overwrite(m: Map<u64, Seq<char>>, k: u64, v: Seq<char>)
    ensures
        m.insert(k, v).dom().contains(k),
        m.insert(k, v)[k] == v,
        forall|k2: u64| k2 != k ==> m.insert(k, v).dom().contains(k2) == m.dom().contains(k2),
        forall|k2: u64|
            k2 != k && m.dom().contains(k2) ==> (#[trigger] m.insert(k, v)[k2]) == m[k2],
{
}

/// The effect of one edge creation on every derived structure: the fresh
/// identifier is the old log length; the source's outgoing list and the
/// destination's incoming list each grow by exactly the one matching entry;
/// every other adjacency list is unchanged; and the payload map gains the
/// fresh identifier.
pub proof fn lemma_add_edge_adjacency(log: Seq<EdgeRec>, rec: EdgeRec)
    requires
        log.len() < u64::MAX,
    ensures
        out_of(log.push(rec), rec.src) == out_of(log, rec.src).push((log.len() as u64, rec.dst)),
        in_of(log.push(rec), rec.dst) == in_of(log, rec.dst).push((log.len() as u64, rec.src)),
        forall|k: u64| k != rec.src ==> out_of(log.push(rec), k) == out_of(log, k),
        forall|k: u64| k != rec.dst ==> in_of(log.push(rec), k) == in_of(log, k),
        edge_payloads(log.push(rec)) == edge_payloads(log).insert(log.len() as u64, rec.payload),
        !edge_payloads(log).dom().contains(log.len() as u64),
{
    lemma_out_of_push(log, rec, rec.src);
    lemma_in_of_push(log, rec, rec.dst);
    assert forall|k: u64| k != rec.src implies out_of(log.push(rec), k) == out_of(log, k) by {
        lemma_out_of_push(log, rec, k);
    }
    assert forall|k: u64| k != rec.dst implies in_of(log.push(rec), k) == in_of(log, k) by {
        lemma_in_of_push(log, rec, k);
    }
    lemma_edge_payloads_push(log, rec);
}

/// Edge identifiers are unique: an identifier occurs in the outgoing
/// adjacency of at most one key, and at most once there.
pub proof fn lemma_edge_id_unique(log: Seq<EdgeRec>, k1: u64, k2: u64, i: int, j: int)
    requires
        log.len() <= u64::MAX,
        0 <= i < out_of(log, k1).len(),
        0 <= j < out_of(log, k2).len(),
        out_of(log, k1)[i].0 == out_of(log, k2)[j].0,
    ensures
        k1 == k2,
        i == j,
{
    lemma_out_of_entries(log, k1);
    lemma_out_of_entries(log, k2);
    assert(log[out_of(log, k1)[i].0 as int].src == k1);
    assert(log[out_of(log, k2)[j].0 as int].src == k2);
    if i < j {
        assert(out_of(log, k1)[i].0 < out_of(log, k1)[j].0);
    }
    if j < i {
        assert(out_of(log, k1)[j].0 < out_of(log, k1)[i].0);
    }
}

/// Identifier allocation is exhaustive as well as fresh: after `n` edge
/// creations the stored identifiers are exactly `0 .. n`, so no identifier
/// is missing and none is duplicated.
pub proof fn lemma_edge_ids_exhaustive(log: Seq<EdgeRec>)
    ensures
        forall|id: u64| edge_payloads(log).dom().contains(id) <==> (id as nat) < log.len(),
{
}

} // verus!
