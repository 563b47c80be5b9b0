//! Trusted interface to the sharded concurrent maps.
//!
//! The store keeps its four maps in `dashmap::DashMap` (and, once frozen, in
//! `dashmap::ReadOnlyView`): hashed sets of independently locked partitions.
//! Verus does not read those crates, so each map type is declared opaque
//! here, its contents are named by an uninterpreted view function, and every
//! method the store calls goes through a wrapper whose contract states, over
//! those views, what the crate's source shows.  Everything else in this
//! crate is verified against these contracts.
use vstd::prelude::*;

use std::collections::hash_map::RandomState;
use std::hash::BuildHasherDefault;

use dashmap::DashMap;
use dashmap::ReadOnlyView;
use nohash_hasher::NoHashHasher;

use crate::model::adj_pairs_view;
use crate::model::covers;
use crate::model::pairs_view;

verus! {

#[verifier::external_type_specification]
#[verifier::external_body]
#[verifier::reject_recursive_types(K)]
#[verifier::reject_recursive_types(V)]
#[verifier::reject_recursive_types(S)]
pub struct ExDashMap<K, V, S>(DashMap<K, V, S>);

#[verifier::external_type_specification]
#[verifier::external_body]
#[verifier::reject_recursive_types(K)]
#[verifier::reject_recursive_types(V)]
#[verifier::reject_recursive_types(S)]
pub struct ExReadOnlyView<K, V, S>(ReadOnlyView<K, V, S>);

#[verifier::external_type_specification]
#[verifier::external_body]
#[verifier::reject_recursive_types(T)]
pub struct ExNoHashHasher<T>(NoHashHasher<T>);

#[verifier::external_type_specification]
#[verifier::external_body]
#[verifier::reject_recursive_types(H)]
pub struct ExBuildHasherDefault<H>(BuildHasherDefault<H>);

/// The hasher of the node-keyed maps: `u64` key to node payload.
pub type NodeMap = DashMap<u64, String, RandomState>;

/// The edge map, keyed by raw edge identifier with the fixed integer-identity
/// hasher.
pub type EdgeMap = DashMap<u64, String, BuildHasherDefault<NoHashHasher<u64>>>;

/// An adjacency index: key to ordered list of `(edge id, peer key)` pairs.
pub type AdjMap = DashMap<u64, Vec<(u64, u64)>, RandomState>;

pub uninterp spec fn node_map_view(m: NodeMap) -> Map<u64, Seq<char>>;

pub uninterp spec fn edge_map_view(m: EdgeMap) -> Map<u64, Seq<char>>;

pub uninterp spec fn adj_map_view(m: AdjMap) -> Map<u64, Seq<(u64, u64)>>;

pub uninterp spec fn ro_node_view(m: ReadOnlyView<u64, String, RandomState>) -> Map<
    u64,
    Seq<char>,
>;

pub uninterp spec fn ro_edge_view(
    m: ReadOnlyView<u64, String, BuildHasherDefault<NoHashHasher<u64>>>,
) -> Map<u64, Seq<char>>;

pub uninterp spec fn ro_adj_view(m: ReadOnlyView<u64, Vec<(u64, u64)>, RandomState>) -> Map<
    u64,
    Seq<(u64, u64)>,
>;

/// Relies on `RandomState::default`: a fresh randomized general-purpose
/// hasher.  Nothing is stated of it; the views above never depend on the
/// hasher.
#[verifier::external_body]
pub(crate) fn random_state_default() -> RandomState {
    RandomState::default()
}

/// Relies on `BuildHasherDefault::default`: the fixed identity hasher used
/// for edge identifiers.  Nothing is stated of it.
#[verifier::external_body]
pub(crate) fn edge_hasher_default() -> BuildHasherDefault<NoHashHasher<u64>> {
    BuildHasherDefault::default()
}

/// Relies on `DashMap::with_capacity_and_hasher`: a fresh empty map with the
/// given capacity hint, and on `RandomState::clone`.
#[verifier::external_body]
pub(crate) fn node_map_new(capacity: usize, hasher: &RandomState) -> (r: NodeMap)
    ensures
        node_map_view(r) == crate::model::no_nodes(),
{
    DashMap::with_capacity_and_hasher(capacity, hasher.clone())
}

/// Relies on `DashMap::with_capacity_and_hasher`: a fresh empty map.
#[verifier::external_body]
pub(crate) fn edge_map_new(capacity: usize, hasher: BuildHasherDefault<NoHashHasher<u64>>) -> (r:
    EdgeMap)
    ensures
        edge_map_view(r) == crate::model::no_edges(),
{
    DashMap::with_capacity_and_hasher(capacity, hasher)
}

/// Relies on `DashMap::with_capacity_and_hasher`: a fresh empty map, and on
/// `RandomState::clone`.
#[verifier::external_body]
pub(crate) fn adj_map_new(capacity: usize, hasher: &RandomState) -> (r: AdjMap)
    ensures
        adj_map_view(r) == crate::model::no_adj(),
{
    DashMap::with_capacity_and_hasher(capacity, hasher.clone())
}

/// Relies on `DashMap::len`: the number of stored entries.
#[verifier::external_body]
pub(crate) fn node_map_len(m: &NodeMap) -> (r: usize)
    ensures
        r == node_map_view(*m).dom().len(),
{
    m.len()
}

/// Relies on `DashMap::contains_key`: whether an entry with this key is
/// stored.
#[verifier::external_body]
pub(crate) fn node_map_contains(m: &NodeMap, key: u64) -> (r: bool)
    ensures
        r == node_map_view(*m).dom().contains(key),
{
    m.contains_key(&key)
}

/// Relies on `DashMap::get`: the value stored under the key, if any; the
/// guard it returns is released here and the value handed out cloned.
#[verifier::external_body]
pub(crate) fn node_map_get(m: &NodeMap, key: u64) -> (r: Option<String>)
    ensures
        match r {
            Some(v) => node_map_view(*m).dom().contains(key) && v@ == node_map_view(*m)[key],
            None => !node_map_view(*m).dom().contains(key),
        },
{
    m.get(&key).map(|v| v.value().clone())
}

/// Relies on `DashMap::insert`: stores the value under the key and returns
/// the value previously stored there, if any.
#[verifier::external_body]
pub(crate) fn node_map_insert(m: &mut NodeMap, key: u64, value: String) -> (r: Option<String>)
    ensures
        node_map_view(*final(m)) == node_map_view(*old(m)).insert(key, value@),
        match r {
            Some(v) => node_map_view(*old(m)).dom().contains(key) && v@ == node_map_view(
                *old(m),
            )[key],
            None => !node_map_view(*old(m)).dom().contains(key),
        },
{
    m.insert(key, value)
}

/// Relies on `DashMap::get_mut`: a scoped exclusive handle to the entry of
/// the key, if one is stored; the payload is replaced through it.  An
/// absent key leaves the map unchanged.
#[verifier::external_body]
pub(crate) fn node_map_update(m: &mut NodeMap, key: u64, value: String) -> (r: bool)
    ensures
        r == node_map_view(*old(m)).dom().contains(key),
        node_map_view(*final(m)) == if node_map_view(*old(m)).dom().contains(key) {
            node_map_view(*old(m)).insert(key, value@)
        } else {
            node_map_view(*old(m))
        },
{
    match m.get_mut(&key) {
        Some(mut entry) => {
            *entry.value_mut() = value;
            true
        },
        None => false,
    }
}

/// Relies on `DashMap::iter`: visits every entry exactly once, in an
/// unspecified order; each is cloned into the result.
#[verifier::external_body]
pub(crate) fn node_map_pairs(m: &NodeMap) -> (r: Vec<(u64, String)>)
    ensures
        covers(node_map_view(*m), pairs_view(r@)),
{
    let mut v = Vec::new();
    for entry in m.iter() {
        v.push((*entry.key(), entry.value().clone()));
    }
    v
}

/// Relies on `DashMap::shrink_to_fit`: releases excess capacity and keeps
/// the entries.
#[verifier::external_body]
pub(crate) fn node_map_shrink(m: &mut NodeMap)
    ensures
        node_map_view(*final(m)) == node_map_view(*old(m)),
{
    m.shrink_to_fit()
}

/// Relies on `DashMap::clone`: a deep copy with the same entries.
#[verifier::external_body]
pub(crate) fn node_map_clone(m: &NodeMap) -> (r: NodeMap)
    ensures
        node_map_view(r) == node_map_view(*m),
{
    m.clone()
}

/// Relies on `DashMap::into_read_only`: consumes the map into a read-only
/// view of the same entries.
#[verifier::external_body]
pub(crate) fn node_map_freeze(m: NodeMap) -> (r: ReadOnlyView<u64, String, RandomState>)
    ensures
        ro_node_view(r) == node_map_view(m),
{
    m.into_read_only()
}

/// Relies on `DashMap::insert`: stores the payload under the identifier.
#[verifier::external_body]
pub(crate) fn edge_map_insert(m: &mut EdgeMap, id: u64, value: String)
    ensures
        edge_map_view(*final(m)) == edge_map_view(*old(m)).insert(id, value@),
{
    m.insert(id, value);
}

/// Relies on `DashMap::get`, as `node_map_get` does.
#[verifier::external_body]
pub(crate) fn edge_map_get(m: &EdgeMap, id: u64) -> (r: Option<String>)
    ensures
        match r {
            Some(v) => edge_map_view(*m).dom().contains(id) && v@ == edge_map_view(*m)[id],
            None => !edge_map_view(*m).dom().contains(id),
        },
{
    m.get(&id).map(|v| v.value().clone())
}

/// Relies on `DashMap::shrink_to_fit`, as `node_map_shrink` does.
#[verifier::external_body]
pub(crate) fn edge_map_shrink(m: &mut EdgeMap)
    ensures
        edge_map_view(*final(m)) == edge_map_view(*old(m)),
{
    m.shrink_to_fit()
}

/// Relies on `DashMap::clone`, as `node_map_clone` does.
#[verifier::external_body]
pub(crate) fn edge_map_clone(m: &EdgeMap) -> (r: EdgeMap)
    ensures
        edge_map_view(r) == edge_map_view(*m),
{
    m.clone()
}

/// Relies on `DashMap::into_read_only`, as `node_map_freeze` does.
#[verifier::external_body]
pub(crate) fn edge_map_freeze(m: EdgeMap) -> (r: ReadOnlyView<
    u64,
    String,
    BuildHasherDefault<NoHashHasher<u64>>,
>)
    ensures
        ro_edge_view(r) == edge_map_view(m),
{
    m.into_read_only()
}

/// Relies on `DashMap::entry` and `Entry::or_default`: locks the entry of
/// the key, inserting an empty list first if the key is absent, and on
/// `Vec::push`: appends the pair to that list.
#[verifier::external_body]
pub(crate) fn adj_map_push(m: &mut AdjMap, key: u64, item: (u64, u64))
    ensures
        adj_map_view(*final(m)) == if adj_map_view(*old(m)).dom().contains(key) {
            adj_map_view(*old(m)).insert(key, adj_map_view(*old(m))[key].push(item))
        } else {
            adj_map_view(*old(m)).insert(key, seq![item])
        },
{
    m.entry(key).or_default().push(item);
}

/// Relies on `DashMap::get`: the list stored under the key, if any, cloned.
#[verifier::external_body]
pub(crate) fn adj_map_get(m: &AdjMap, key: u64) -> (r: Option<Vec<(u64, u64)>>)
    ensures
        match r {
            Some(v) => adj_map_view(*m).dom().contains(key) && v@ == adj_map_view(*m)[key],
            None => !adj_map_view(*m).dom().contains(key),
        },
{
    m.get(&key).map(|v| v.value().clone())
}

/// Relies on `DashMap::iter`, as `node_map_pairs` does.
#[verifier::external_body]
pub(crate) fn adj_map_pairs(m: &AdjMap) -> (r: Vec<(u64, Vec<(u64, u64)>)>)
    ensures
        covers(adj_map_view(*m), adj_pairs_view(r@)),
{
    let mut v = Vec::new();
    for entry in m.iter() {
        v.push((*entry.key(), entry.value().clone()));
    }
    v
}

/// Relies on `DashMap::shrink_to_fit`, as `node_map_shrink` does.
#[verifier::external_body]
pub(crate) fn adj_map_shrink(m: &mut AdjMap)
    ensures
        adj_map_view(*final(m)) == adj_map_view(*old(m)),
{
    m.shrink_to_fit()
}

/// Relies on `DashMap::iter_mut` and `Vec::shrink_to_fit`: visits every
/// stored list once and releases its excess capacity; no list's contents
/// change.
#[verifier::external_body]
pub(crate) fn adj_map_shrink_lists(m: &mut AdjMap)
    ensures
        adj_map_view(*final(m)) == adj_map_view(*old(m)),
{
    for mut entry in m.iter_mut() {
        entry.value_mut().shrink_to_fit();
    }
}

/// Relies on `DashMap::clone`, as `node_map_clone` does.
#[verifier::external_body]
pub(crate) fn adj_map_clone(m: &AdjMap) -> (r: AdjMap)
    ensures
        adj_map_view(r) == adj_map_view(*m),
{
    m.clone()
}

/// Relies on `DashMap::into_read_only`, as `node_map_freeze` does.
#[verifier::external_body]
pub(crate) fn adj_map_freeze(m: AdjMap) -> (r: ReadOnlyView<u64, Vec<(u64, u64)>, RandomState>)
    ensures
        ro_adj_view(r) == adj_map_view(m),
{
    m.into_read_only()
}

/// Relies on `ReadOnlyView::len`: the number of stored entries.
#[verifier::external_body]
pub(crate) fn ro_node_len(m: &ReadOnlyView<u64, String, RandomState>) -> (r: usize)
    ensures
        r == ro_node_view(*m).dom().len(),
{
    m.len()
}

/// Relies on `ReadOnlyView::contains_key`.
#[verifier::external_body]
pub(crate) fn ro_node_contains(m: &ReadOnlyView<u64, String, RandomState>, key: u64) -> (r: bool)
    ensures
        r == ro_node_view(*m).dom().contains(key),
{
    m.contains_key(&key)
}

/// Relies on `ReadOnlyView::get`: the value stored under the key, cloned.
#[verifier::external_body]
pub(crate) fn ro_node_get(m: &ReadOnlyView<u64, String, RandomState>, key: u64) -> (r: Option<
    String,
>)
    ensures
        match r {
            Some(v) => ro_node_view(*m).dom().contains(key) && v@ == ro_node_view(*m)[key],
            None => !ro_node_view(*m).dom().contains(key),
        },
{
    m.get(&key).cloned()
}

/// Relies on `ReadOnlyView::iter`, as `node_map_pairs` does on the mutable
/// map.
#[verifier::external_body]
pub(crate) fn ro_node_pairs(m: &ReadOnlyView<u64, String, RandomState>) -> (r: Vec<(u64, String)>)
    ensures
        covers(ro_node_view(*m), pairs_view(r@)),
{
    let mut v = Vec::new();
    for (key, value) in m.iter() {
        v.push((*key, value.clone()));
    }
    v
}

/// Relies on `ReadOnlyView::get`, as `ro_node_get` does.
#[verifier::external_body]
pub(crate) fn ro_edge_get(
    m: &ReadOnlyView<u64, String, BuildHasherDefault<NoHashHasher<u64>>>,
    id: u64,
) -> (r: Option<String>)
    ensures
        match r {
            Some(v) => ro_edge_view(*m).dom().contains(id) && v@ == ro_edge_view(*m)[id],
            None => !ro_edge_view(*m).dom().contains(id),
        },
{
    m.get(&id).cloned()
}

/// Relies on `ReadOnlyView::get`, as `ro_node_get` does; the list is cloned.
#[verifier::external_body]
pub(crate) fn ro_adj_get(m: &ReadOnlyView<u64, Vec<(u64, u64)>, RandomState>, key: u64) -> (r:
    Option<Vec<(u64, u64)>>)
    ensures
        match r {
            Some(v) => ro_adj_view(*m).dom().contains(key) && v@ == ro_adj_view(*m)[key],
            None => !ro_adj_view(*m).dom().contains(key),
        },
{
    m.get(&key).cloned()
}

} // verus!
