use obsidian_graph::vault_parser::can_build_graph;
use obsidian_graph::vault_parser::extract_pages;
use obsidian_graph::vault_parser::pages_to_graph;
use obsidian_graph::vault_parser::vault_to_graph;
use obsidian_graph::Page;
use petgraph::graph::NodeIndex;
use petgraph::Graph;

fn strings(list: &[&str]) -> Vec<String> {
    list.iter().map(|s| s.to_string()).collect()
}

fn page(title: &str, links: &[&str]) -> Page {
    Page {
        title: title.to_string(),
        tags: Vec::new(),
        empty: false,
        links: strings(links),
    }
}

fn file(title: &str, contents: &str) -> (String, String) {
    (title.to_string(), contents.to_string())
}

fn titles(graph: &Graph<Page, ()>) -> Vec<String> {
    graph.node_weights().map(|page| page.title.clone()).collect()
}

fn links(graph: &Graph<Page, ()>) -> Vec<(usize, usize)> {
    graph
        .edge_indices()
        .map(|e| graph.edge_endpoints(e).unwrap())
        .map(|(a, b)| (a.index(), b.index()))
        .collect()
}

fn neighbors(graph: &Graph<Page, ()>, node: usize) -> Vec<usize> {
    graph
        .neighbors_undirected(NodeIndex::new(node))
        .map(|n| n.index())
        .collect()
}

#[test]
fn extract_pages_adds_empty_pages_for_missing_targets() {
    let files = vec![
        file("A", "---\ntags: x, y\n---\n[[B]] and [[C]]"),
        file("B", "[[A]] [[D|label]] [[C]]"),
    ];
    let pages = extract_pages(&files);
    let summary: Vec<(String, bool, Vec<String>, Vec<String>)> = pages
        .iter()
        .map(|p| (p.title.clone(), p.empty, p.tags.clone(), p.links.clone()))
        .collect();
    assert_eq!(
        summary,
        vec![
            ("A".to_string(), false, strings(&["x", "y"]), strings(&["B", "C"])),
            ("C".to_string(), true, strings(&[]), strings(&[])),
            ("B".to_string(), false, strings(&[]), strings(&["A", "D", "C"])),
            ("D".to_string(), true, strings(&[]), strings(&[])),
            ("C".to_string(), true, strings(&[]), strings(&[])),
        ]
    );
    assert!(can_build_graph(&pages));
}

#[test]
fn extract_pages_of_no_files() {
    assert!(extract_pages(&Vec::new()).is_empty());
}

#[test]
fn can_build_graph_asks_for_every_target() {
    assert!(can_build_graph(&Vec::new()));
    assert!(can_build_graph(&vec![page("A", &["A"])]));
    assert!(can_build_graph(&vec![page("A", &["B"]), page("B", &[])]));
    assert!(!can_build_graph(&vec![page("A", &["B"])]));
    assert!(!can_build_graph(&vec![page("A", &["B", "C"]), page("B", &[])]));
}

#[test]
fn pages_to_graph_keeps_the_first_page_of_a_title() {
    let mut second = page("A", &[]);
    second.tags = strings(&["later"]);
    let graph = pages_to_graph(vec![page("A", &[]), page("B", &[]), second]);
    assert_eq!(titles(&graph), strings(&["A", "B"]));
    assert!(graph.node_weight(NodeIndex::new(0)).unwrap().tags.is_empty());
    assert_eq!(graph.edge_count(), 0);
}

#[test]
fn pages_to_graph_links_in_order_and_keeps_repeats() {
    let graph = pages_to_graph(vec![
        page("A", &["B", "C"]),
        page("B", &["A", "A"]),
        page("C", &["C"]),
        page("A", &["C"]),
    ]);
    assert_eq!(titles(&graph), strings(&["A", "B", "C"]));
    assert_eq!(
        links(&graph),
        vec![(0, 1), (0, 2), (1, 0), (1, 0), (2, 2), (0, 2)]
    );
}

#[test]
fn pages_to_graph_neighbors_are_newest_first_targets_then_sources() {
    let graph = pages_to_graph(vec![
        page("A", &["B", "C"]),
        page("B", &["A"]),
        page("C", &["C", "A"]),
    ]);
    assert_eq!(neighbors(&graph, 0), vec![2, 1, 2, 1]);
    assert_eq!(neighbors(&graph, 1), vec![0, 0]);
    assert_eq!(neighbors(&graph, 2), vec![0, 2, 0]);
}

#[test]
fn vault_to_graph_joins_files_by_title() {
    let files = vec![
        file("A", "[[B]] [[Missing]]"),
        file("B", "---\ntags: t\n---\n[[A]] [[Missing]]"),
    ];
    let graph = vault_to_graph(&files).unwrap();
    assert_eq!(titles(&graph), strings(&["A", "Missing", "B"]));
    assert_eq!(links(&graph), vec![(0, 2), (0, 1), (2, 0), (2, 1)]);
    let empty: Vec<bool> = graph.node_weights().map(|p| p.empty).collect();
    assert_eq!(empty, vec![false, true, false]);
    assert_eq!(
        graph.node_weight(NodeIndex::new(2)).unwrap().tags,
        strings(&["t"])
    );
}

/// The neighbour lists that the links give when they are added one by one: the
/// target goes first into the source's list; the source goes into the
/// target's list behind the targets of the links that leave the target.
fn neighbor_lists(count: usize, links: &[(usize, usize)]) -> Vec<Vec<usize>> {
    let mut lists: Vec<Vec<usize>> = vec![Vec::new(); count];
    let mut leaving: Vec<usize> = vec![0; count];
    for &(a, b) in links {
        lists[a].insert(0, b);
        if a != b {
            lists[b].insert(leaving[b], a);
        }
        leaving[a] += 1;
    }
    lists
}

#[test]
fn pages_to_graph_neighbors_follow_the_links_one_by_one() {
    let mut state: u64 = 0x2545_f491_4f6c_dd1d;
    let mut next = |bound: u64| {
        state ^= state << 13;
        state ^= state >> 7;
        state ^= state << 17;
        (state % bound) as usize
    };
    for round in 0..40 {
        let count = 1 + next(6);
        let names: Vec<String> = (0..count).map(|i| format!("p{}", i)).collect();
        let mut pages = Vec::new();
        let mut expected = Vec::new();
        for i in 0..count {
            let degree = next(5);
            let targets: Vec<usize> = (0..degree).map(|_| next(count as u64)).collect();
            for &t in &targets {
                expected.push((i, t));
            }
            let target_names: Vec<&str> = targets.iter().map(|&t| names[t].as_str()).collect();
            pages.push(page(&names[i], &target_names));
        }
        assert!(can_build_graph(&pages));
        let graph = pages_to_graph(pages);
        assert_eq!(links(&graph), expected, "round {}", round);
        let lists = neighbor_lists(count, &expected);
        for node in 0..count {
            assert_eq!(neighbors(&graph, node), lists[node], "round {} node {}", round, node);
        }
    }
}
