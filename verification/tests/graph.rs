use std::collections::hash_map::RandomState;
use std::collections::HashSet;

use weave::{EdgeId, Graph};

#[test]
fn test_add_node_to_empty() {
    let mut graph = Graph::default();
    assert!(graph.is_empty());
    assert_eq!(graph.len(), 0);

    let alice = graph.get_node(1);
    assert!(alice.is_none());

    graph.insert(1, "Alice".to_string());
    assert!(!graph.is_empty());
    assert_eq!(graph.len(), 1);

    let found_alice = graph.get_node(1).unwrap();
    assert_eq!(found_alice, "Alice".to_string());
}

#[test]
fn test_from_iter() {
    let mut users = Graph::new();
    for (id, name) in [(1u64, "Alice"), (2u64, "Bob"), (3u64, "Charlie")] {
        users.insert(id, name.to_string());
    }

    assert_eq!(users.get_node(1).unwrap(), "Alice");

    // Alice follows Bob, and Bob blocks Charlie
    users.add_edge(1, 2, "Follows".to_string());
    users.add_edge(2, 3, "Blocks".to_string());

    // Test that edges from Alice are correct
    let alice_relations = users.edges_from(1).unwrap();
    assert_eq!(alice_relations.len(), 1);

    let alice_to_bob = alice_relations[0];
    assert_eq!(alice_to_bob.1, 2);
    assert_eq!(users.get_edge(alice_to_bob.0).unwrap(), "Follows");

    // Test that edges to Bob are correct
    let who_follows_bob = users.edges_to(2).unwrap();
    assert_eq!(who_follows_bob.len(), 1);
    let bob_from_alice = who_follows_bob[0];
    // This is the same edge
    assert_eq!(bob_from_alice.0, alice_to_bob.0);
}

#[test]
fn repeated_insert_reports_previous_payload() {
    let mut graph = Graph::new();
    assert_eq!(graph.insert(7, "a".to_string()), None);
    assert_eq!(graph.insert(7, "b".to_string()), Some("a".to_string()));
    assert_eq!(graph.insert(7, "c".to_string()), Some("b".to_string()));
    assert_eq!(graph.get_node(7), Some("c".to_string()));
    assert_eq!(graph.len(), 1);
}

#[test]
fn add_edge_grows_both_indices_by_one() {
    let mut graph = Graph::new();
    graph.insert(1, "Alice".to_string());
    graph.insert(2, "Bob".to_string());
    graph.add_edge(1, 2, "first".to_string());

    let out_before = graph.edges_from(1).unwrap().len();
    let in_before = graph.edges_to(2).unwrap().len();
    let id = graph.add_edge(1, 2, "second".to_string());

    let out_after = graph.edges_from(1).unwrap();
    let in_after = graph.edges_to(2).unwrap();
    assert_eq!(out_after.len(), out_before + 1);
    assert_eq!(in_after.len(), in_before + 1);
    assert_eq!(out_after[out_after.len() - 1], (id, 2));
    assert_eq!(in_after[in_after.len() - 1], (id, 1));
    assert_eq!(graph.get_edge(id).unwrap(), "second");
}

#[test]
fn edge_ids_are_distinct_and_complete() {
    let mut graph = Graph::new();
    for key in 0u64..4 {
        graph.insert(key, format!("node-{key}"));
    }
    // Three batches of four edge creations: every id comes out exactly
    // once, with none missing.
    let mut ids: Vec<EdgeId> = Vec::new();
    for batch in 0u64..3 {
        for t in 0u64..4 {
            ids.push(graph.add_edge(batch, t, format!("{batch}->{t}")));
        }
    }
    assert_eq!(ids.len(), 12);
    let distinct: HashSet<u64> = ids.iter().map(|id| id.0).collect();
    assert_eq!(distinct.len(), 12);
    for raw in 0u64..12 {
        assert!(distinct.contains(&raw));
    }
}

#[test]
fn update_node_replaces_in_place_only_when_present() {
    let mut graph = Graph::new();
    graph.insert(1, "Alice".to_string());
    assert!(graph.update_node(1, "Alicia".to_string()));
    assert_eq!(graph.get_node(1), Some("Alicia".to_string()));
    assert!(!graph.update_node(2, "Nobody".to_string()));
    assert!(!graph.has_node(2));
    assert_eq!(graph.len(), 1);
}

#[test]
fn concrete_scenario_three_users() {
    let mut graph = Graph::new();
    graph.insert(1, "Alice".to_string());
    graph.insert(2, "Bob".to_string());
    graph.insert(3, "Charlie".to_string());

    let e0 = graph.add_edge(1, 2, "Follows".to_string());
    let e1 = graph.add_edge(2, 3, "Blocks".to_string());
    assert_ne!(e0, e1);
    assert_eq!(e0, EdgeId(0));
    assert_eq!(e1, EdgeId(1));

    assert_eq!(graph.edges_from(1).unwrap(), vec![(e0, 2)]);
    assert_eq!(graph.edges_to(2).unwrap(), vec![(e0, 1)]);
    assert_eq!(graph.get_edge(e0).unwrap(), "Follows");
    assert_eq!(graph.len(), 3);
}

#[test]
fn with_capacity_starts_empty() {
    let graph = Graph::with_capacity(10);
    assert!(graph.is_empty());
    assert_eq!(graph.len(), 0);
}

#[test]
fn with_hasher_behaves_like_new() {
    let mut graph = Graph::with_capacity_and_hasher(8, RandomState::new());
    assert!(graph.is_empty());
    graph.insert(5, "five".to_string());
    assert!(graph.has_node(5));
    assert!(!graph.has_node(6));

    let mut other = Graph::with_hasher(RandomState::new());
    other.insert(5, "five".to_string());
    assert_eq!(other.get_node(5), graph.get_node(5));
}

#[test]
fn get_edge_unknown_id_is_absent() {
    let mut graph = Graph::new();
    graph.insert(1, "Alice".to_string());
    assert_eq!(graph.get_edge(EdgeId(0)), None);
    let id = graph.add_edge(1, 1, "self".to_string());
    assert_eq!(graph.get_edge(id).unwrap(), "self");
    assert_eq!(graph.get_edge(EdgeId(1)), None);
}

#[test]
fn iter_nodes_lists_every_node_once() {
    let mut graph = Graph::new();
    graph.insert(1, "Alice".to_string());
    graph.insert(2, "Bob".to_string());
    graph.insert(3, "Charlie".to_string());
    let mut pairs = graph.iter_nodes();
    pairs.sort();
    assert_eq!(
        pairs,
        vec![
            (1, "Alice".to_string()),
            (2, "Bob".to_string()),
            (3, "Charlie".to_string()),
        ]
    );
}

#[test]
fn shrinking_keeps_contents() {
    let mut graph = Graph::with_capacity(64);
    graph.insert(1, "Alice".to_string());
    graph.insert(2, "Bob".to_string());
    let id = graph.add_edge(1, 2, "Follows".to_string());
    graph.shrink_to_fit();
    assert_eq!(graph.len(), 2);
    assert_eq!(graph.get_edge(id).unwrap(), "Follows");
    graph.shrink_all_to_fit();
    assert_eq!(graph.len(), 2);
    assert_eq!(graph.edges_from(1).unwrap(), vec![(id, 2)]);
}

#[test]
fn duplicate_copies_state_and_counter() {
    let mut graph = Graph::new();
    graph.insert(1, "Alice".to_string());
    graph.insert(2, "Bob".to_string());
    let e0 = graph.add_edge(1, 2, "Follows".to_string());

    let mut copy = graph.duplicate();
    assert_eq!(copy.len(), 2);
    assert_eq!(copy.get_node(1), Some("Alice".to_string()));
    assert_eq!(copy.get_edge(e0).unwrap(), "Follows");
    assert_eq!(copy.edges_from(1).unwrap(), vec![(e0, 2)]);

    // The duplicate allocates independently from the copied counter value,
    // so both stores hand out the same next identifier: the documented
    // collision risk of duplication.
    let a = graph.add_edge(2, 1, "x".to_string());
    let b = copy.add_edge(2, 1, "y".to_string());
    assert_eq!(a, b);

    // Mutating the duplicate does not touch the original.
    copy.insert(3, "Charlie".to_string());
    assert!(!graph.has_node(3));
}
