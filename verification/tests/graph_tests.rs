use termprint::graph::Graph;
use termprint::graph::GraphError;
use termprint::graph::Node;

fn sources_of(g: &Graph<u32>) -> Vec<usize> {
    g.sources.clone().expect("sources computed")
}

#[test]
fn node_new_carries_fields() {
    let n: Node<u32> = Node::new(3, "name", "label", 7);
    assert_eq!(n.id, 3);
    assert_eq!(n.name, "name");
    assert_eq!(n.label, "label");
    assert_eq!(n.content, 7);
}

#[test]
fn graph_error_carries_message() {
    let e = GraphError::new(String::from("it broke"));
    assert_eq!(e.message(), "it broke");
}

#[test]
fn add_node_returns_dense_ids_in_order() {
    let mut g: Graph<u32> = Graph::new();
    assert_eq!(g.add_node("a", "A", 0), 0);
    assert_eq!(g.add_node("b", "B", 0), 1);
    assert_eq!(g.add_node("c", "C", 0), 2);
    assert_eq!(g.nodes.len(), 3);
    assert_eq!(g.nodes[1].id, 1);
}

#[test]
fn find_sources_keeps_exactly_untargeted_ids() {
    let mut g: Graph<u32> = Graph::new();
    g.add_node("a", "A", 0);
    g.add_node("b", "B", 0);
    g.add_node("c", "C", 0);
    g.add_edge_byname("a", "b").unwrap();
    g.find_sources();
    let s = sources_of(&g);
    assert_eq!(s, vec![0, 2]);
    // b has an incoming edge, a and c have none
    assert!(!s.contains(&1));
}

#[test]
fn find_sources_twice_gives_identical_lists() {
    let mut g: Graph<u32> = Graph::new();
    g.add_node("a", "A", 0);
    g.add_node("b", "B", 0);
    g.add_node("c", "C", 0);
    g.add_edge_byname("a", "c").unwrap();
    g.find_sources();
    let first = sources_of(&g);
    g.find_sources();
    let second = sources_of(&g);
    assert_eq!(first, second);
}

#[test]
fn add_edge_fails_with_unresolved_from_name() {
    let mut g: Graph<u32> = Graph::new();
    g.add_node("b", "B", 0);
    let err = g.add_edge_byname("a", "b").unwrap_err();
    assert_eq!(err.message(), "a not in graph. Cannot add edge.");
    assert!(g.next_nodes[0].is_empty());
}

#[test]
fn add_edge_fails_with_unresolved_to_name() {
    let mut g: Graph<u32> = Graph::new();
    g.add_node("a", "A", 0);
    let err = g.add_edge_byname("a", "missing").unwrap_err();
    assert_eq!(err.message(), "missing not in graph. Cannot add edge");
    assert!(g.next_nodes[0].is_empty());
}

#[test]
fn add_edge_grows_adjacency_by_one_even_for_duplicates() {
    let mut g: Graph<u32> = Graph::new();
    g.add_node("a", "A", 0);
    g.add_node("b", "B", 0);
    g.add_edge_byname("a", "b").unwrap();
    assert_eq!(g.next_nodes[0], vec![1]);
    g.add_edge_byname("a", "b").unwrap();
    assert_eq!(g.next_nodes[0], vec![1, 1]);
}

#[test]
fn add_root_collapses_forest_to_single_source() {
    let mut g: Graph<u32> = Graph::new();
    g.add_node("a", "A", 0);
    g.add_node("b", "B", 0);
    g.add_node("c", "C", 0);
    g.find_sources();
    assert_eq!(sources_of(&g), vec![0, 1, 2]);
    let root_id = g.add_root("root", 0);
    assert_eq!(root_id, 3);
    assert_eq!(sources_of(&g), vec![root_id]);
    // the root's adjacency is the prior source list, in the same order
    assert_eq!(g.next_nodes[root_id], vec![0, 1, 2]);
    assert_eq!(g.nodes[root_id].name, "root");
    assert_eq!(g.nodes[root_id].label, "root");
}

#[test]
fn resolve_finds_latest_node_under_a_shadowed_name() {
    let mut g: Graph<u32> = Graph::new();
    g.add_node("x", "first", 0);
    g.add_node("y", "other", 0);
    g.add_node("x", "second", 0);
    assert_eq!(g.resolve("x"), Some(2));
    assert_eq!(g.resolve("y"), Some(1));
    assert_eq!(g.resolve("z"), None);
}

#[test]
fn to_name_returns_the_node_name() {
    let mut g: Graph<u32> = Graph::new();
    g.add_node("alpha", "A", 0);
    assert_eq!(g.to_name(0), "alpha");
}

#[test]
fn render_without_sources_is_empty() {
    let mut g: Graph<u32> = Graph::new();
    g.add_node("a", "A", 0);
    assert_eq!(g.render(), "");
}

#[test]
fn render_empty_graph_is_empty() {
    let mut g: Graph<u32> = Graph::new();
    g.find_sources();
    assert_eq!(g.render(), "");
}

#[test]
fn render_single_isolated_node_is_one_bare_line() {
    let mut g: Graph<u32> = Graph::new();
    g.add_node("only", "only", 0);
    g.find_sources();
    assert_eq!(g.render(), "only\n");
}

#[test]
fn render_root_with_two_children() {
    let mut g: Graph<u32> = Graph::new();
    g.add_node("root", "root", 0);
    g.add_node("a", "A", 0);
    g.add_node("b", "B", 0);
    g.add_edge_byname("root", "a").unwrap();
    g.add_edge_byname("root", "b").unwrap();
    g.find_sources();
    assert_eq!(g.render(), "root\n├── A\n└── B\n");
}

#[test]
fn render_nested_last_child_uses_blank_continuation() {
    let mut g: Graph<u32> = Graph::new();
    g.add_node("root", "root", 0);
    g.add_node("a", "A", 0);
    g.add_node("b", "B", 0);
    g.add_edge_byname("root", "a").unwrap();
    g.add_edge_byname("a", "b").unwrap();
    g.find_sources();
    assert_eq!(g.render(), "root\n└── A\n    └── B\n");
}

#[test]
fn render_middle_child_with_child_keeps_bar_column() {
    let mut g: Graph<u32> = Graph::new();
    g.add_node("root", "root", 0);
    g.add_node("a", "A", 0);
    g.add_node("b", "B", 0);
    g.add_node("c", "C", 0);
    g.add_node("d", "D", 0);
    g.add_edge_byname("root", "a").unwrap();
    g.add_edge_byname("root", "b").unwrap();
    g.add_edge_byname("root", "d").unwrap();
    g.add_edge_byname("b", "c").unwrap();
    g.find_sources();
    assert_eq!(g.render(), "root\n├── A\n├── B\n│   └── C\n└── D\n");
}

#[test]
fn render_forest_lists_every_source() {
    let mut g: Graph<u32> = Graph::new();
    g.add_node("a", "A", 0);
    g.add_node("b", "B", 0);
    g.find_sources();
    assert_eq!(g.render(), "A\nB\n");
}

#[test]
fn render_after_add_root_shows_single_tree() {
    let mut g: Graph<u32> = Graph::new();
    g.add_node("a", "A", 0);
    g.add_node("b", "B", 0);
    g.find_sources();
    g.add_root("top", 0);
    assert_eq!(g.render(), "top\n├── A\n└── B\n");
}

#[test]
fn recursive_write_threads_the_prefixes() {
    let mut g: Graph<u32> = Graph::new();
    g.add_node("p", "P", 0);
    g.add_node("q", "Q", 0);
    g.add_edge_byname("p", "q").unwrap();
    let mut out = String::new();
    g.recursive_write(&mut out, 0, ">>", "..", 5);
    assert_eq!(out, ">>P\n..└── Q\n");
}

#[test]
fn styled_render_matches_plain_when_colour_is_off() {
    colored::control::set_override(false);
    let mut g: Graph<u32> = Graph::new();
    g.add_node("root", "root", 0);
    g.add_node("a", "A", 0);
    g.add_edge_byname("root", "a").unwrap();
    g.find_sources();
    assert_eq!(g.render_styled(), g.render());
}

#[test]
fn styled_render_inserts_escapes_when_colour_is_forced() {
    colored::control::set_override(true);
    let mut g: Graph<u32> = Graph::new();
    g.add_node("root", "root", 0);
    g.find_sources();
    let styled = g.render_styled();
    assert!(styled.contains('\u{1b}'));
    assert!(styled.contains("root"));
    colored::control::unset_override();
}
