use std::collections::HashSet;

use weave::{EdgeId, Graph};

fn sample_graph() -> Graph {
    let mut graph = Graph::new();
    graph.insert(1, "Alice".to_string());
    graph.insert(2, "Bob".to_string());
    graph.insert(3, "Charlie".to_string());
    graph.add_edge(1, 2, "Follows".to_string());
    graph.add_edge(2, 3, "Blocks".to_string());
    graph
}

#[test]
fn freeze_preserves_nodes_and_edges() {
    let mut graph = Graph::new();
    graph.insert(1, "Alice".to_string());
    graph.insert(2, "Bob".to_string());
    graph.insert(3, "Charlie".to_string());
    let e0 = graph.add_edge(1, 2, "Follows".to_string());
    let e1 = graph.add_edge(2, 3, "Blocks".to_string());

    let out_of_1 = graph.edges_from(1).unwrap();
    let into_3 = graph.edges_to(3).unwrap();

    let snap = graph.into_read_only();
    assert_eq!(snap.len(), 3);
    assert!(!snap.is_empty());
    assert!(snap.has_node(2));
    assert!(!snap.has_node(4));
    assert_eq!(snap.get_node(1), Some("Alice".to_string()));
    assert_eq!(snap.get_node(4), None);
    assert_eq!(snap.get_edge(e0), Some("Follows".to_string()));
    assert_eq!(snap.get_edge(e1), Some("Blocks".to_string()));
    assert_eq!(snap.get_edge(EdgeId(2)), None);

    // Every adjacency reachable before freezing is reachable afterwards.
    assert_eq!(snap.edge_ids_from(1).unwrap(), out_of_1);
    assert_eq!(snap.edge_ids_to(3).unwrap(), into_3);
    assert_eq!(snap.edge_ids_from(3), None);
    assert_eq!(snap.edge_ids_to(1), None);
}

#[test]
fn snapshot_triples_follow_insertion_order_per_node() {
    let mut graph = Graph::new();
    graph.insert(1, "Alice".to_string());
    graph.insert(2, "Bob".to_string());
    graph.add_edge(1, 2, "first".to_string());
    graph.add_edge(1, 2, "second".to_string());
    let snap = graph.into_read_only();

    let triples = snap.iter_edges_from(1).unwrap();
    assert_eq!(
        triples,
        vec![
            ("Alice".to_string(), "first".to_string(), "Bob".to_string()),
            ("Alice".to_string(), "second".to_string(), "Bob".to_string()),
        ]
    );
    assert_eq!(snap.iter_edges_from(2), None);
    assert_eq!(snap.iter_edges_from(9), None);
}

#[test]
fn iterate_all_edges_yields_each_edge_exactly_once() {
    let snap = sample_graph().into_read_only();
    let triples = snap.iter();
    assert_eq!(triples.len(), 2);
    let got: HashSet<(String, String, String)> = triples.into_iter().collect();
    let mut expected = HashSet::new();
    expected.insert((
        "Alice".to_string(),
        "Follows".to_string(),
        "Bob".to_string(),
    ));
    expected.insert((
        "Bob".to_string(),
        "Blocks".to_string(),
        "Charlie".to_string(),
    ));
    assert_eq!(got, expected);
}

#[test]
fn iterate_all_edges_keeps_per_source_creation_order() {
    let mut graph = Graph::new();
    graph.insert(1, "Alice".to_string());
    graph.insert(2, "Bob".to_string());
    graph.add_edge(1, 2, "first".to_string());
    graph.add_edge(1, 2, "second".to_string());
    graph.add_edge(1, 2, "third".to_string());
    let snap = graph.into_read_only();

    // Only one node has outgoing edges, so the whole sequence is that
    // node's list, in creation order, whatever order the keys are visited.
    let triples = snap.iter();
    assert_eq!(
        triples,
        vec![
            ("Alice".to_string(), "first".to_string(), "Bob".to_string()),
            ("Alice".to_string(), "second".to_string(), "Bob".to_string()),
            ("Alice".to_string(), "third".to_string(), "Bob".to_string()),
        ]
    );
}

#[test]
fn snapshot_node_iteration_lists_every_node_once() {
    let snap = sample_graph().into_read_only();
    let mut pairs = snap.iter_nodes();
    pairs.sort();
    assert_eq!(
        pairs,
        vec![
            (1, "Alice".to_string()),
            (2, "Bob".to_string()),
            (3, "Charlie".to_string()),
        ]
    );
}

#[test]
fn indexing_a_present_key_returns_its_payload() {
    let snap = sample_graph().into_read_only();
    assert_eq!(snap.index(2), "Bob".to_string());
}

#[test]
fn freezing_an_empty_store_gives_an_empty_snapshot() {
    let snap = Graph::new().into_read_only();
    assert!(snap.is_empty());
    assert_eq!(snap.len(), 0);
    assert_eq!(snap.iter().len(), 0);
    assert_eq!(snap.iter_nodes().len(), 0);
}
