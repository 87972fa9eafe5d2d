//! The graph of pages, kept in a `petgraph` graph.
//!
//! Verus does not look inside a `petgraph::Graph`. What the rest of the crate
//! reasons about are three sequences that describe one: the pages by node index,
//! the links by edge index, and for each node the neighbours in the order in
//! which the graph walks them. The functions of this file are the only code that
//! touches the graph itself; their contracts are taken on trust from the source
//! of `petgraph`.

use crate::Page;
use petgraph::graph::EdgeIndex;
use petgraph::graph::Graph;
use petgraph::graph::NodeIndex;
use petgraph::Directed;
use vstd::prelude::*;

verus! {

/// `petgraph::graph::Graph`, taken as it is: nothing is claimed of what a value
/// of it holds but through the names and functions below.
#[verifier::external_type_specification]
#[verifier::external_body]
#[verifier::reject_recursive_types(N)]
#[verifier::reject_recursive_types(E)]
#[verifier::reject_recursive_types(Ty)]
#[verifier::reject_recursive_types(Ix)]
pub struct ExGraph<N, E, Ty, Ix>(Graph<N, E, Ty, Ix>);

/// `petgraph::Directed`, the marker of graphs whose links have a direction.
#[verifier::external_type_specification]
#[verifier::external_body]
pub struct ExDirected(Directed);

/// The pages of a graph: the weight of each node, by node index.
pub uninterp spec fn graph_pages(graph: Graph<Page, ()>) -> Seq<Page>;

/// The links of a graph: source and target node of each edge, by edge index.
pub uninterp spec fn graph_links(graph: Graph<Page, ()>) -> Seq<(usize, usize)>;

/// The neighbours of each node of a graph over links of either direction, in the
/// order in which `Graph::neighbors_undirected` walks them.
pub uninterp spec fn graph_neighbors(graph: Graph<Page, ()>) -> Seq<Seq<usize>>;

/// The number of links in `links` that leave node `a`.
pub open spec fn out_degree(links: Seq<(usize, usize)>, a: usize) -> nat
    decreases links.len(),
{
    if links.len() == 0 {
        0
    } else if links.last().0 == a {
        out_degree(links.drop_last(), a) + 1
    } else {
        out_degree(links.drop_last(), a)
    }
}

/// The neighbour lists after a link from `a` to `b` has been added to a graph
/// with the neighbour lists `neighbors` and the links `links`.
///
/// A node's list holds the targets of the links that leave it, newest first, and
/// then the sources of the links that reach it from other nodes, newest first.
pub open spec fn neighbors_with_link(
    neighbors: Seq<Seq<usize>>,
    links: Seq<(usize, usize)>,
    a: usize,
    b: usize,
) -> Seq<Seq<usize>> {
    let with_target = neighbors.update(a as int, seq![b] + neighbors[a as int]);
    if a == b {
        with_target
    } else {
        with_target.update(
            b as int,
            neighbors[b as int].insert(out_degree(links, b) as int, a),
        )
    }
}

/// Every node of `graph` with an empty page has a neighbour.
pub open spec fn empty_pages_linked(graph: Graph<Page, ()>) -> bool {
    forall|n: int|
        0 <= n < graph_pages(graph).len() && graph_pages(graph)[n].empty ==> (
        #[trigger] graph_neighbors(graph)[n]).len() > 0
}

/// `Graph::new`: a graph without nodes and links.
#[verifier::external_body]
pub(crate) fn graph_new() -> (graph: Graph<Page, ()>)
    ensures
        graph_pages(graph) == Seq::<Page>::empty(),
        graph_links(graph) == Seq::<(usize, usize)>::empty(),
        graph_neighbors(graph) == Seq::<Seq<usize>>::empty(),
{
    Graph::new()
}

/// `Graph::node_count`: the number of nodes. A graph indexed by `u32` refuses a
/// node beyond `u32::MAX` of them.
#[verifier::external_body]
pub(crate) fn graph_node_count(graph: &Graph<Page, ()>) -> (count: usize)
    ensures
        count == graph_pages(*graph).len(),
        count == graph_neighbors(*graph).len(),
        count <= u32::MAX,
{
    graph.node_count()
}

/// `Graph::edge_count`: the number of links. A graph indexed by `u32` refuses a
/// link beyond `u32::MAX` of them.
#[verifier::external_body]
pub(crate) fn graph_edge_count(graph: &Graph<Page, ()>) -> (count: usize)
    ensures
        count == graph_links(*graph).len(),
        count <= u32::MAX,
{
    graph.edge_count()
}

/// `Graph::node_weight`: the page of node `index`, if there is such a node.
#[verifier::external_body]
pub(crate) fn graph_node_weight(graph: &Graph<Page, ()>, index: usize) -> (page: Option<&Page>)
    requires
        index <= u32::MAX,
    ensures
        page == (if index < graph_pages(*graph).len() {
            Some(&graph_pages(*graph)[index as int])
        } else {
            None
        }),
{
    graph.node_weight(NodeIndex::new(index))
}

/// `Graph::edge_endpoints`: source and target of link `index`, if there is such a
/// link. Both are nodes of the graph.
#[verifier::external_body]
pub(crate) fn graph_edge_endpoints(graph: &Graph<Page, ()>, index: usize) -> (ends: Option<
    (usize, usize),
>)
    requires
        index <= u32::MAX,
    ensures
        ends == (if index < graph_links(*graph).len() {
            Some(graph_links(*graph)[index as int])
        } else {
            None
        }),
        ends matches Some((source, target)) ==> source < graph_pages(*graph).len() && target
            < graph_pages(*graph).len(),
{
    graph.edge_endpoints(EdgeIndex::new(index)).map(|(source, target)| (source.index(), target.index()))
}

/// `Graph::neighbors_undirected`: the neighbours of node `index` over links of
/// either direction, in the graph's order; none where there is no such node.
/// Each is a node of the graph.
#[verifier::external_body]
pub(crate) fn graph_neighbors_undirected(graph: &Graph<Page, ()>, index: usize) -> (found: Vec<
    usize,
>)
    requires
        index <= u32::MAX,
    ensures
        found@ == (if index < graph_neighbors(*graph).len() {
            graph_neighbors(*graph)[index as int]
        } else {
            Seq::<usize>::empty()
        }),
        forall|k: int| 0 <= k < found@.len() ==> #[trigger] found@[k] < graph_pages(*graph).len(),
{
    graph.neighbors_undirected(NodeIndex::new(index)).map(|node| node.index()).collect()
}

/// `Graph::add_node`: appends a node that holds `page`, without links, and
/// returns its index.
#[verifier::external_body]
pub(crate) fn graph_add_node(graph: &mut Graph<Page, ()>, page: Page) -> (index: usize)
    requires
        graph_pages(*old(graph)).len() < u32::MAX,
    ensures
        index == graph_pages(*old(graph)).len(),
        graph_pages(*final(graph)) == graph_pages(*old(graph)).push(page),
        graph_links(*final(graph)) == graph_links(*old(graph)),
        graph_neighbors(*final(graph)) == graph_neighbors(*old(graph)).push(Seq::<usize>::empty()),
{
    graph.add_node(page).index()
}

/// `Graph::add_edge`: appends a link from node `a` to node `b` and returns its
/// index. The link is put first among those that leave `a` and first among those
/// that reach `b`; a node does not count itself twice for a link to itself.
#[verifier::external_body]
pub(crate) fn graph_add_edge(graph: &mut Graph<Page, ()>, a: usize, b: usize) -> (index: usize)
    requires
        a < graph_pages(*old(graph)).len() <= u32::MAX,
        b < graph_pages(*old(graph)).len(),
        graph_links(*old(graph)).len() < u32::MAX,
    ensures
        index == graph_links(*old(graph)).len(),
        graph_pages(*final(graph)) == graph_pages(*old(graph)),
        graph_links(*final(graph)) == graph_links(*old(graph)).push((a, b)),
        graph_neighbors(*final(graph)) == neighbors_with_link(
            graph_neighbors(*old(graph)),
            graph_links(*old(graph)),
            a,
            b,
        ),
{
    graph.add_edge(NodeIndex::new(a), NodeIndex::new(b), ()).index()
}

} // verus!
