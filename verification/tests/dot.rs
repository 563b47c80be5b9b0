use weave::dot::{DotAttribute, DotBuilder, ToDot};
use weave::Graph;

#[test]
fn label_is_quoted_and_color_is_bare() {
    let (key, value) = DotAttribute::label("Alice".to_string());
    assert_eq!(key, "label");
    assert!(matches!(value, DotAttribute::String(s) if s == "Alice"));

    let (key, value) = DotAttribute::color("red".to_string());
    assert_eq!(key, "color");
    assert!(matches!(value, DotAttribute::Ident(s) if s == "red"));
}

#[test]
fn builder_writes_nodes_and_edges_in_order() {
    let mut builder = DotBuilder::new("MyGraph".to_string());
    builder.add_node(1, vec![DotAttribute::label("Alice".to_string())]);
    builder.add_edge_simple(1, 2);
    let out = builder.write();
    assert_eq!(
        out,
        "digraph MyGraph {\n  rankdir=LR;\n\n  \"1\" [label=\"Alice\"];\n\n  \"1\" -> \"2\";\n}"
    );
}

#[test]
fn builder_first_node_declaration_wins() {
    let mut builder = DotBuilder::default();
    builder.add_node(1, vec![DotAttribute::label("Alice".to_string())]);
    builder.add_node(1, vec![DotAttribute::label("Impostor".to_string())]);
    let out = builder.write();
    assert_eq!(
        out,
        "digraph G {\n  rankdir=LR;\n\n  \"1\" [label=\"Alice\"];\n\n}"
    );
}

#[test]
fn builder_renders_attribute_lists() {
    let mut builder = DotBuilder::default();
    builder.add_node(
        42,
        vec![
            DotAttribute::label("Answer".to_string()),
            DotAttribute::color("red".to_string()),
        ],
    );
    builder.add_edge(42, 7, vec![DotAttribute::color("blue".to_string())]);
    let out = builder.write();
    assert_eq!(
        out,
        "digraph G {\n  rankdir=LR;\n\n  \"42\" [label=\"Answer\"; color=red];\n\n  \"42\" -> \"7\" [color=blue];\n}"
    );
}

#[test]
fn to_dot_matches_write() {
    let mut builder = DotBuilder::new("T".to_string());
    builder.add_node(105, vec![DotAttribute::label("big".to_string())]);
    assert_eq!(builder.to_dot(), builder.write());
    assert!(builder.to_dot().contains("\"105\""));
}

#[test]
fn graph_export_lists_nodes_and_edges() {
    let mut graph = Graph::new();
    graph.insert(1, "Alice".to_string());
    graph.add_edge(1, 1, "self".to_string());
    let out = graph.to_dot();
    assert_eq!(
        out,
        "digraph G {\n  rankdir=LR;\n\n  1 [label=\"Alice\"];\n\n  1 -> 1;\n\n}"
    );
}

#[test]
fn graph_export_of_empty_store() {
    let graph = Graph::new();
    assert_eq!(graph.to_dot(), "digraph G {\n  rankdir=LR;\n\n\n\n}");
}
