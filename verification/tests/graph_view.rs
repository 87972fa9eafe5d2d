use egui::Vec2;
use obsidian_graph::filtering::ParsingError;
use obsidian_graph::GraphView;
use obsidian_graph::Node;
use obsidian_graph::Page;
use petgraph::graph::NodeIndex;
use petgraph::Graph;

fn page(title: &str, tags: &[&str], empty: bool) -> Page {
    Page {
        title: title.to_string(),
        tags: tags.iter().map(|tag| tag.to_string()).collect(),
        empty,
        links: Vec::new(),
    }
}

fn at(x: f32, y: f32) -> Vec2 {
    Vec2::new(x, y)
}

fn start() -> Vec2 {
    at(1.0, -2.0)
}

/// Nodes: 0 "Rust" (tag lang), 1 "Go" (tag lang), 2 "Stub" (empty), 3 "Notes",
/// 4 "Lost" (empty). Links: 0->1, 0->2, 3->2, 1->0, 3->4.
fn sample_graph() -> Graph<Page, ()> {
    let mut graph = Graph::<Page, ()>::new();
    let rust = graph.add_node(page("Rust", &["lang"], false));
    let go = graph.add_node(page("Go", &["lang"], false));
    let stub = graph.add_node(page("Stub", &[], true));
    let notes = graph.add_node(page("Notes", &[], false));
    let lost = graph.add_node(page("Lost", &[], true));
    graph.add_edge(rust, go, ());
    graph.add_edge(rust, stub, ());
    graph.add_edge(notes, stub, ());
    graph.add_edge(go, rust, ());
    graph.add_edge(notes, lost, ());
    graph
}

fn sample_view() -> GraphView {
    let mut view = GraphView::new(sample_graph(), start);
    for i in 0..5 {
        view.set_node_position(i, at(i as f32, 10.0 * i as f32));
    }
    view
}

fn shown(view: &GraphView) -> Vec<bool> {
    (0..view.node_count()).map(|i| view.node_is_visible(i)).collect()
}

fn places(view: &GraphView) -> Vec<Vec2> {
    (0..view.node_count()).map(|i| view.node_position(i)).collect()
}

#[test]
fn node_new_is_shown() {
    let node = Node::new(7, at(3.0, 4.0));
    assert_eq!(node.node_index, 7);
    assert_eq!(node.frame_pos, at(3.0, 4.0));
    assert!(node.visible);
}

#[test]
fn new_view_shows_every_node_where_the_sampler_says() {
    let view = GraphView::new(sample_graph(), start);
    assert_eq!(view.node_count(), 5);
    assert_eq!(view.edge_count(), 5);
    assert_eq!(shown(&view), vec![true; 5]);
    assert_eq!(places(&view), vec![start(); 5]);
}

#[test]
fn new_view_of_the_empty_graph() {
    let mut view = GraphView::new(Graph::<Page, ()>::new(), start);
    assert_eq!(view.node_count(), 0);
    assert!(view.node_positions().is_empty());
    assert!(view.edge_start_end_positions().is_empty());
    assert!(view.visible_positions().is_empty());
    assert!(view.placeholders_have_neighbors());
    assert_eq!(view.filter_nodes("A"), None);
    view.physics_timestep(|p, _, _| p);
}

#[test]
fn node_positions_are_listed_by_index() {
    let view = sample_view();
    let expected: Vec<(usize, Vec2)> = (0..5).map(|i| (i, at(i as f32, 10.0 * i as f32))).collect();
    assert_eq!(view.node_positions(), expected);
}

#[test]
fn edge_positions_are_listed_by_index() {
    let view = sample_view();
    let p = places(&view);
    assert_eq!(
        view.edge_start_end_positions(),
        vec![
            (0, p[0], p[1]),
            (1, p[0], p[2]),
            (2, p[3], p[2]),
            (3, p[1], p[0]),
            (4, p[3], p[4]),
        ]
    );
    assert_eq!(view.edge_endpoints(2), Some((3, 2)));
    assert_eq!(view.edge_endpoints(5), None);
    assert_eq!(view.edge_endpoints(usize::MAX), None);
}

#[test]
fn lookups_of_a_node() {
    let view = sample_view();
    let rust = view.node_page(0).unwrap();
    assert_eq!(rust.title, "Rust");
    assert_eq!(rust.tags, vec!["lang".to_string()]);
    assert!(!rust.empty);
    assert!(!view.node_is_empty(0));
    assert!(view.node_is_empty(2));
    assert_eq!(view.node_title(3), "Notes");
    assert_eq!(view.node_tags(1), vec!["lang".to_string()]);
    assert!(view.node_tags(3).is_empty());
}

#[test]
fn lookups_of_what_is_no_node() {
    let view = sample_view();
    for index in [5, 6, 1 << 32, (1 << 32) + 1, usize::MAX] {
        assert!(view.node_page(index).is_none());
        assert!(view.node_is_empty(index));
        assert_eq!(view.node_title(index), "");
        assert!(view.node_tags(index).is_empty());
    }
}

#[test]
fn set_position_moves_one_node() {
    let mut view = sample_view();
    let before = places(&view);
    view.set_node_position(3, at(-5.0, 0.5));
    let after = places(&view);
    for i in 0..5 {
        assert_eq!(after[i], if i == 3 { at(-5.0, 0.5) } else { before[i] });
    }
    assert_eq!(shown(&view), vec![true; 5]);
    view.set_node_position(5, at(9.0, 9.0));
    view.set_node_position((1 << 32) + 3, at(9.0, 9.0));
    assert_eq!(places(&view), after);
}

#[test]
fn set_visible_changes_one_node() {
    let mut view = sample_view();
    let before = places(&view);
    view.set_node_visible(1, false);
    assert_eq!(shown(&view), vec![true, false, true, true, true]);
    view.set_node_visible(1, true);
    view.set_node_visible(4, false);
    view.set_node_visible(7, false);
    assert_eq!(shown(&view), vec![true, true, true, true, false]);
    assert_eq!(places(&view), before);
}

#[test]
fn empty_pages_follow_their_first_neighbor() {
    let mut view = sample_view();
    assert!(view.placeholders_have_neighbors());
    // The first neighbour of "Stub" is "Notes", the source of its newest link,
    // and that of "Lost" is "Notes" too.
    assert_eq!(view.filter_nodes("tag:#lang"), None);
    assert_eq!(shown(&view), vec![true, true, false, false, false]);
    assert_eq!(view.filter_nodes("Notes | Go"), None);
    assert_eq!(shown(&view), vec![false, true, true, true, true]);
    assert_eq!(view.filter_nodes("-Rust"), None);
    assert_eq!(shown(&view), vec![false, true, true, true, true]);
    assert_eq!(view.filter_nodes(""), None);
    assert_eq!(shown(&view), vec![true; 5]);
}

#[test]
fn empty_page_follows_the_target_of_its_newest_link_first() {
    let mut graph = Graph::<Page, ()>::new();
    let stub = graph.add_node(page("Stub", &[], true));
    let a = graph.add_node(page("A", &[], false));
    let b = graph.add_node(page("B", &[], false));
    graph.add_edge(a, stub, ());
    graph.add_edge(stub, b, ());
    graph.add_edge(b, stub, ());
    let mut view = GraphView::new(graph, start);
    assert_eq!(view.filter_nodes("B"), None);
    assert_eq!(shown(&view), vec![true, false, true]);
    assert_eq!(view.filter_nodes("A"), None);
    assert_eq!(shown(&view), vec![false, true, false]);
}

#[test]
fn empty_page_next_to_an_empty_page_takes_what_that_showed_before() {
    let mut graph = Graph::<Page, ()>::new();
    let first = graph.add_node(page("First", &[], true));
    let second = graph.add_node(page("Second", &[], true));
    let real = graph.add_node(page("Real", &[], false));
    graph.add_edge(real, second, ());
    graph.add_edge(second, first, ());
    let mut view = GraphView::new(graph, start);
    // "First" follows "Second", which was shown; "Second" follows "First",
    // the target of its link, which was shown as well.
    assert_eq!(view.filter_nodes("Nothing"), None);
    assert_eq!(shown(&view), vec![true, true, false]);
    view.set_node_visible(0, false);
    assert_eq!(view.filter_nodes("Real"), None);
    assert_eq!(shown(&view), vec![true, false, true]);
}

#[test]
fn filter_error_changes_nothing() {
    let mut view = sample_view();
    view.set_node_visible(0, false);
    view.set_node_visible(2, false);
    let before = shown(&view);
    assert_eq!(
        view.filter_nodes("A & (B"),
        Some(ParsingError::UnmatchedParentheses)
    );
    assert_eq!(
        view.filter_nodes("A B"),
        Some(ParsingError::InvalidExpression("A B".to_string()))
    );
    assert_eq!(shown(&view), before);
}

#[test]
fn filter_leaves_positions_alone() {
    let mut view = sample_view();
    let before = places(&view);
    view.filter_nodes("Go");
    assert_eq!(places(&view), before);
}

#[test]
fn placeholder_without_neighbor_is_found() {
    let mut graph = sample_graph();
    graph.add_node(page("Alone", &[], true));
    let view = GraphView::new(graph, start);
    assert!(!view.placeholders_have_neighbors());
    let mut graph = sample_graph();
    graph.add_node(page("Alone", &[], false));
    let view = GraphView::new(graph, start);
    assert!(view.placeholders_have_neighbors());
}

#[test]
fn visible_positions_skip_hidden_nodes() {
    let mut view = sample_view();
    let p = places(&view);
    assert_eq!(view.visible_positions(), p);
    view.set_node_visible(1, false);
    view.set_node_visible(4, false);
    assert_eq!(view.visible_positions(), vec![p[0], p[2], p[3]]);
}

#[test]
fn visible_neighbor_positions_follow_the_graph() {
    let mut view = sample_view();
    let p = places(&view);
    // Node 0: targets of its links newest first (2, 1), then sources (1).
    assert_eq!(view.visible_neighbor_positions(0), vec![p[2], p[1], p[1]]);
    assert_eq!(view.visible_neighbor_positions(2), vec![p[3], p[0]]);
    assert_eq!(view.visible_neighbor_positions(4), vec![p[3]]);
    view.set_node_visible(1, false);
    assert_eq!(view.visible_neighbor_positions(0), vec![p[2]]);
    view.set_node_visible(0, false);
    assert_eq!(view.visible_neighbor_positions(0), vec![p[2]]);
    assert_eq!(view.visible_neighbor_positions(1), Vec::<Vec2>::new());
}

#[test]
fn self_link_counts_once() {
    let mut graph = Graph::<Page, ()>::new();
    let a = graph.add_node(page("A", &[], false));
    let b = graph.add_node(page("B", &[], false));
    graph.add_edge(a, b, ());
    graph.add_edge(a, a, ());
    let mut view = GraphView::new(graph, start);
    view.set_node_position(0, at(1.0, 1.0));
    view.set_node_position(1, at(2.0, 2.0));
    assert_eq!(
        view.visible_neighbor_positions(0),
        vec![at(1.0, 1.0), at(2.0, 2.0)]
    );
}

#[test]
fn step_moves_shown_nodes_from_the_positions_before_it() {
    let mut view = sample_view();
    let p = places(&view);
    // Each node moves to the sum of its neighbours' positions plus the number
    // of shown nodes.
    view.physics_timestep(|_, near, all| {
        let mut sum = at(all.len() as f32, 0.0);
        for q in near {
            sum += *q;
        }
        sum
    });
    let count = at(5.0, 0.0);
    assert_eq!(
        places(&view),
        vec![
            count + p[2] + p[1] + p[1],
            count + p[0] + p[0],
            count + p[3] + p[0],
            count + p[4] + p[2],
            count + p[3],
        ]
    );
    assert_eq!(shown(&view), vec![true; 5]);
}

#[test]
fn step_hands_each_node_its_own_position() {
    let mut view = sample_view();
    let p = places(&view);
    view.physics_timestep(|own, _, _| own + at(0.5, 0.0));
    let moved: Vec<Vec2> = p.iter().map(|q| *q + at(0.5, 0.0)).collect();
    assert_eq!(places(&view), moved);
}

#[test]
fn hidden_node_is_frozen_and_left_out_of_every_sum() {
    let mut view = sample_view();
    view.set_node_visible(0, false);
    let p = places(&view);
    for _ in 0..3 {
        view.physics_timestep(|own, near, all| {
            assert!(!near.contains(&p[0]));
            assert!(!all.contains(&p[0]));
            assert_eq!(all.len(), 4);
            own + at(1.0, 1.0)
        });
    }
    let after = places(&view);
    assert_eq!(after[0], p[0]);
    for i in 1..5 {
        assert_eq!(after[i], p[i] + at(3.0, 3.0));
    }
    assert_eq!(shown(&view), vec![false, true, true, true, true]);
}

#[test]
fn step_does_not_ask_the_rule_for_hidden_nodes() {
    let mut view = sample_view();
    for i in 0..5 {
        view.set_node_visible(i, false);
    }
    let p = places(&view);
    view.physics_timestep(|_, _, _| panic!("a hidden node was handed to the rule"));
    assert_eq!(places(&view), p);
}

#[test]
fn node_index_of_a_graph_is_the_index_of_the_view() {
    let mut graph = Graph::<Page, ()>::new();
    let a: NodeIndex = graph.add_node(page("A", &[], false));
    let b: NodeIndex = graph.add_node(page("B", &[], false));
    let view = GraphView::new(graph, start);
    assert_eq!(view.node_title(a.index()), "A");
    assert_eq!(view.node_title(b.index()), "B");
}
