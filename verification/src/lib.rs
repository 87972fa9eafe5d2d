//! Layout and filtering of a graph of interlinked pages.
//!
//! A [`GraphView`] holds the graph of pages together with what the layout keeps
//! for each node: where it stands and whether it is shown. The positions are
//! opaque to this crate: it stores and hands them out, and the forces that move
//! them are computed by the caller.

use crate::filtering::evaluate_expr;
use crate::filtering::expr_holds;
use crate::filtering::parse_boolean_expr;
use crate::filtering::parse_spec;
use crate::filtering::ExprView;
use crate::filtering::ParsingError;
use crate::graph_store::empty_pages_linked;
use crate::graph_store::graph_edge_count;
use crate::graph_store::graph_edge_endpoints;
use crate::graph_store::graph_links;
use crate::graph_store::graph_neighbors;
use crate::graph_store::graph_neighbors_undirected;
use crate::graph_store::graph_node_count;
use crate::graph_store::graph_node_weight;
use crate::graph_store::graph_pages;
use crate::layout_laws::indices;
use crate::text::copy_strings;
use crate::text::texts;
use egui::Vec2;
use petgraph::graph::Graph;
use vstd::prelude::*;

pub mod filtering;
pub mod filtering_laws;
pub mod graph_store;
pub mod layout_laws;
pub mod markdown;
pub mod text;
pub mod vault_laws;
pub mod vault_parser;

verus! {

/// `egui::Vec2`, a position on the plane, taken as it is: this crate stores
/// positions and hands them out, and never looks at their coordinates.
#[verifier::external_type_specification]
#[verifier::external_body]
pub struct ExVec2(Vec2);

/// A page of the vault: its title, its tags and the titles it links to.
///
/// A page is `empty` when it is only known as the target of a link.
#[derive(Debug)]
pub struct Page {
    /// Title of the page
    pub title: String,
    /// Tags of the page
    pub tags: Vec<String>,
    /// Whether the page is empty
    pub empty: bool,
    /// Titles of the pages this page links to
    pub links: Vec<String>,
}

/// The mathematical model of a [`Page`].
pub struct PageView {
    pub title: Seq<char>,
    pub tags: Seq<Seq<char>>,
    pub empty: bool,
    pub links: Seq<Seq<char>>,
}

impl View for Page {
    type V = PageView;

    open spec fn view(&self) -> PageView {
        PageView {
            title: self.title@,
            tags: texts(self.tags@),
            empty: self.empty,
            links: texts(self.links@),
        }
    }
}

impl Clone for Page {
    fn clone(&self) -> (copy: Page)
        ensures
            copy@ == self@,
    {
        Page {
            title: self.title.clone(),
            tags: copy_strings(&self.tags),
            empty: self.empty,
            links: copy_strings(&self.links),
        }
    }
}

/// What the layout keeps for one page of the graph.
pub struct Node {
    /// Index of the page's node in the graph
    pub node_index: usize,
    /// Position relative to the centre of the frame
    pub frame_pos: Vec2,
    /// Whether the node is shown
    pub visible: bool,
}

impl Node {
    /// A shown node at `pos`.
    pub fn new(node_index: usize, pos: Vec2) -> (node: Node)
        ensures
            node.node_index == node_index,
            node.frame_pos == pos,
            node.visible,
    {
        Node { node_index, frame_pos: pos, visible: true }
    }
}

/// The graph of pages with the layout's state of each node.
pub struct GraphView {
    graph: Graph<Page, ()>,
    nodes: Vec<Node>,
}

/// The positions of those nodes among `ids` that are shown, in the order of `ids`.
pub open spec fn shown_positions(ids: Seq<usize>, positions: Seq<Vec2>, shown: Seq<bool>) -> Seq<
    Vec2,
>
    decreases ids.len(),
{
    if ids.len() == 0 {
        Seq::empty()
    } else {
        let before = shown_positions(ids.drop_last(), positions, shown);
        if shown[ids.last() as int] {
            before.push(positions[ids.last() as int])
        } else {
            before
        }
    }
}

impl GraphView {
    /// There is one node state for each node of the graph.
    #[verifier::type_invariant]
    spec fn well_formed(self) -> bool {
        &&& self.nodes@.len() == graph_pages(self.graph).len()
        &&& self.nodes@.len() == graph_neighbors(self.graph).len()
    }

    /// The graph that is laid out.
    pub closed spec fn graph(self) -> Graph<Page, ()> {
        self.graph
    }

    /// The pages, by node index.
    pub open spec fn pages(self) -> Seq<Page> {
        graph_pages(self.graph())
    }

    /// The links, by edge index: source and target node.
    pub open spec fn links(self) -> Seq<(usize, usize)> {
        graph_links(self.graph())
    }

    /// For each node its neighbours over links of either direction, in the graph's order.
    pub open spec fn neighbors(self) -> Seq<Seq<usize>> {
        graph_neighbors(self.graph())
    }

    /// The number of nodes.
    pub open spec fn len(self) -> nat {
        self.pages().len()
    }

    /// The position of node `i`.
    pub closed spec fn position(self, i: int) -> Vec2 {
        self.nodes@[i].frame_pos
    }

    /// Whether node `i` is shown.
    pub closed spec fn shown(self, i: int) -> bool {
        self.nodes@[i].visible
    }

    /// The positions of all nodes, by node index.
    pub open spec fn positions(self) -> Seq<Vec2> {
        Seq::new(self.len(), |i: int| self.position(i))
    }

    /// Which nodes are shown, by node index.
    pub open spec fn visibility(self) -> Seq<bool> {
        Seq::new(self.len(), |i: int| self.shown(i))
    }

    /// Lays out `graph`: every node is shown, at a position that `sample` gives.
    pub fn new<F: Fn() -> Vec2>(graph: Graph<Page, ()>, sample: F) -> (view: GraphView)
        requires
            call_requires(sample, ()),
        ensures
            view.graph() == graph,
            forall|i: int| 0 <= i < view.len() ==> view.shown(i),
            forall|i: int| 0 <= i < view.len() ==> call_ensures(sample, (), #[trigger] view.position(i)),
    {
        let count = graph_node_count(&graph);
        let mut nodes: Vec<Node> = Vec::new();
        let mut i: usize = 0;
        while i < count
            invariant
                i <= count,
                nodes@.len() == i,
                call_requires(sample, ()),
                forall|j: int| 0 <= j < i ==> (#[trigger] nodes@[j]).visible,
                forall|j: int| 0 <= j < i ==> call_ensures(sample, (), (#[trigger] nodes@[j]).frame_pos),
            decreases count - i,
        {
            nodes.push(Node::new(i, sample()));
            i += 1;
        }
        GraphView { graph, nodes }
    }

    /// The number of nodes.
    pub fn node_count(&self) -> (count: usize)
        ensures
            count == self.len(),
    {
        graph_node_count(&self.graph)
    }

    /// The number of links.
    pub fn edge_count(&self) -> (count: usize)
        ensures
            count == self.links().len(),
    {
        graph_edge_count(&self.graph)
    }

    /// All node positions, each with the index of its node.
    pub fn node_positions(&self) -> (list: Vec<(usize, Vec2)>)
        ensures
            list@.len() == self.len(),
            forall|i: int| 0 <= i < self.len() ==> #[trigger] list@[i] == (i as usize, self.position(i)),
    {
        proof {
            use_type_invariant(self);
        }
        let mut list: Vec<(usize, Vec2)> = Vec::new();
        let mut i: usize = 0;
        while i < self.nodes.len()
            invariant
                i <= self.nodes@.len(),
                list@.len() == i,
                forall|j: int| 0 <= j < i ==> #[trigger] list@[j] == (j as usize, self.position(j)),
            decreases self.nodes@.len() - i,
        {
            list.push((i, self.nodes[i].frame_pos));
            i += 1;
        }
        list
    }

    /// Source and target node of link `index`, if there is such a link.
    pub fn edge_endpoints(&self, index: usize) -> (ends: Option<(usize, usize)>)
        ensures
            ends == (if index < self.links().len() {
                Some(self.links()[index as int])
            } else {
                None
            }),
            ends matches Some((source, target)) ==> source < self.len() && target < self.len(),
    {
        if index >= graph_edge_count(&self.graph) {
            return None;
        }
        graph_edge_endpoints(&self.graph, index)
    }

    /// For each link its index and the positions of its source and its target.
    pub fn edge_start_end_positions(&self) -> (list: Vec<(usize, Vec2, Vec2)>)
        ensures
            list@.len() == self.links().len(),
            forall|e: int|
                0 <= e < self.links().len() ==> #[trigger] list@[e] == (
                    e as usize,
                    self.position(self.links()[e].0 as int),
                    self.position(self.links()[e].1 as int),
                ),
    {
        proof {
            use_type_invariant(self);
        }
        let count = graph_edge_count(&self.graph);
        let mut list: Vec<(usize, Vec2, Vec2)> = Vec::new();
        let mut e: usize = 0;
        while e < count
            invariant
                e <= count == self.links().len(),
                count <= u32::MAX,
                self.nodes@.len() == self.len(),
                list@.len() == e,
                forall|k: int|
                    0 <= k < e ==> #[trigger] list@[k] == (
                        k as usize,
                        self.position(self.links()[k].0 as int),
                        self.position(self.links()[k].1 as int),
                    ),
            decreases count - e,
        {
            match graph_edge_endpoints(&self.graph, e) {
                Some((source, target)) => {
                    list.push((e, self.nodes[source].frame_pos, self.nodes[target].frame_pos));
                },
                None => {},
            }
            e += 1;
        }
        list
    }

    /// The page of node `index`, where `index` is a node.
    fn page_at(&self, index: usize) -> (page: Option<&Page>)
        ensures
            page == (if index < self.len() {
                Some(&self.pages()[index as int])
            } else {
                None
            }),
    {
        if index >= graph_node_count(&self.graph) {
            return None;
        }
        graph_node_weight(&self.graph, index)
    }

    /// A copy of the page of node `index`, if there is such a node.
    pub fn node_page(&self, index: usize) -> (page: Option<Page>)
        ensures
            index < self.len() ==> page is Some && page->0@ == self.pages()[index as int]@,
            index >= self.len() ==> page is None,
    {
        match self.page_at(index) {
            Some(page) => Some(page.clone()),
            None => None,
        }
    }

    /// Whether the page of node `index` is empty. What is no node counts as empty.
    pub fn node_is_empty(&self, index: usize) -> (empty: bool)
        ensures
            empty == (index < self.len() ==> self.pages()[index as int].empty),
    {
        match self.page_at(index) {
            Some(page) => page.empty,
            None => true,
        }
    }

    /// The title of the page of node `index`; the empty text for what is no node.
    pub fn node_title(&self, index: usize) -> (title: String)
        ensures
            title@ == (if index < self.len() {
                self.pages()[index as int].title@
            } else {
                Seq::<char>::empty()
            }),
    {
        match self.page_at(index) {
            Some(page) => page.title.clone(),
            None => String::new(),
        }
    }

    /// The tags of the page of node `index`; none for what is no node.
    pub fn node_tags(&self, index: usize) -> (tags: Vec<String>)
        ensures
            texts(tags@) == (if index < self.len() {
                self.pages()[index as int]@.tags
            } else {
                Seq::<Seq<char>>::empty()
            }),
    {
        match self.page_at(index) {
            Some(page) => copy_strings(&page.tags),
            None => {
                let tags: Vec<String> = Vec::new();
                assert(texts(tags@) =~= Seq::<Seq<char>>::empty());
                tags
            },
        }
    }

    /// Whether node `index` is shown.
    pub fn node_is_visible(&self, index: usize) -> (shown: bool)
        requires
            index < self.len(),
        ensures
            shown == self.shown(index as int),
    {
        proof {
            use_type_invariant(self);
        }
        self.nodes[index].visible
    }

    /// The position of node `index`.
    pub fn node_position(&self, index: usize) -> (pos: Vec2)
        requires
            index < self.len(),
        ensures
            pos == self.position(index as int),
    {
        proof {
            use_type_invariant(self);
        }
        self.nodes[index].frame_pos
    }

    /// Moves node `index` to `pos`. Does nothing where `index` is no node.
    pub fn set_node_position(&mut self, index: usize, pos: Vec2)
        ensures
            final(self).graph() == old(self).graph(),
            forall|i: int| 0 <= i < old(self).len() ==> final(self).shown(i) == old(self).shown(i),
            forall|i: int|
                0 <= i < old(self).len() ==> #[trigger] final(self).position(i) == (if i == index {
                    pos
                } else {
                    old(self).position(i)
                }),
    {
        proof {
            use_type_invariant(&*self);
        }
        if index < self.nodes.len() {
            self.nodes[index].frame_pos = pos;
        }
    }

    /// Shows or hides node `index`. Does nothing where `index` is no node.
    pub fn set_node_visible(&mut self, index: usize, visible: bool)
        ensures
            final(self).graph() == old(self).graph(),
            forall|i: int|
                0 <= i < old(self).len() ==> final(self).position(i) == old(self).position(i),
            forall|i: int|
                0 <= i < old(self).len() ==> #[trigger] final(self).shown(i) == (if i == index {
                    visible
                } else {
                    old(self).shown(i)
                }),
    {
        proof {
            use_type_invariant(&*self);
        }
        if index < self.nodes.len() {
            self.nodes[index].visible = visible;
        }
    }

    /// Every node with an empty page has a neighbour.
    pub open spec fn placeholders_linked(self) -> bool {
        empty_pages_linked(self.graph())
    }

    /// Whether node `j` is shown once the pages have been tested against `expr`:
    /// a page that is not empty is shown where it passes, and an empty one is as
    /// it was.
    pub open spec fn shown_after_test(self, expr: ExprView, j: int) -> bool {
        if self.pages()[j].empty {
            self.shown(j)
        } else {
            expr_holds(expr, self.pages()[j]@)
        }
    }

    /// Whether node `i` is shown once `expr` has been applied: a node with an
    /// empty page is shown where its first neighbour is shown after the test of
    /// the pages.
    pub open spec fn shown_under(self, expr: ExprView, i: int) -> bool {
        if self.pages()[i].empty {
            self.shown_after_test(expr, self.neighbors()[i][0] as int)
        } else {
            self.shown_after_test(expr, i)
        }
    }

    /// Whether every node with an empty page has a neighbour.
    pub fn placeholders_have_neighbors(&self) -> (linked: bool)
        ensures
            linked == self.placeholders_linked(),
    {
        let count = graph_node_count(&self.graph);
        let mut i: usize = 0;
        while i < count
            invariant
                i <= count == self.len(),
                count <= u32::MAX,
                count == self.neighbors().len(),
                forall|j: int|
                    0 <= j < i && self.pages()[j].empty ==> (#[trigger] self.neighbors()[j]).len()
                        > 0,
            decreases count - i,
        {
            let empty = match graph_node_weight(&self.graph, i) {
                Some(page) => page.empty,
                None => false,
            };
            if empty {
                let around = graph_neighbors_undirected(&self.graph, i);
                if around.len() == 0 {
                    return false;
                }
            }
            i += 1;
        }
        true
    }

    /// Shows the nodes that pass the expression `filter_query` and hides the others.
    ///
    /// Where the text is no expression, nothing changes and the error is returned.
    /// Otherwise every page that is not empty is tested, and a node with an empty
    /// page then follows its first neighbour.
    pub fn filter_nodes(&mut self, filter_query: &str) -> (error: Option<ParsingError>)
        requires
            parse_spec(filter_query@) is Ok ==> old(self).placeholders_linked(),
        ensures
            final(self).graph() == old(self).graph(),
            forall|i: int|
                0 <= i < old(self).len() ==> final(self).position(i) == old(self).position(i),
            match parse_spec(filter_query@) {
                Ok(expr) => {
                    &&& error is None
                    &&& forall|i: int|
                        0 <= i < old(self).len() ==> #[trigger] final(self).shown(i) == old(
                            self,
                        ).shown_under(expr, i)
                },
                Err(reason) => {
                    &&& error matches Some(e) && e@ == reason
                    &&& forall|i: int|
                        0 <= i < old(self).len() ==> final(self).shown(i) == old(self).shown(i)
                },
            },
    {
        proof {
            use_type_invariant(&*self);
        }
        let expr = match parse_boolean_expr(filter_query) {
            Ok(expr) => expr,
            Err(error) => {
                return Some(error);
            },
        };
        let ghost before = *self;
        let count = graph_node_count(&self.graph);
        // Test the pages that are not empty.
        let mut tested: Vec<bool> = Vec::new();
        let mut i: usize = 0;
        while i < count
            invariant
                *self == before,
                i <= count == self.len(),
                count == self.nodes@.len(),
                count <= u32::MAX,
                tested@.len() == i,
                forall|j: int| 0 <= j < i ==> #[trigger] tested@[j] == before.shown_after_test(expr@, j),
            decreases count - i,
        {
            let shown = match graph_node_weight(&self.graph, i) {
                Some(page) => if page.empty {
                    self.nodes[i].visible
                } else {
                    evaluate_expr(&expr, page)
                },
                None => self.nodes[i].visible,
            };
            tested.push(shown);
            i += 1;
        }
        // Let each node with an empty page follow its first neighbour.
        let mut i: usize = 0;
        while i < count
            invariant
                self.graph() == before.graph(),
                before.placeholders_linked(),
                i <= count == before.len(),
                count == self.nodes@.len(),
                count == before.neighbors().len(),
                count <= u32::MAX,
                tested@.len() == count,
                forall|j: int|
                    0 <= j < count ==> #[trigger] tested@[j] == before.shown_after_test(expr@, j),
                forall|j: int| 0 <= j < count ==> self.position(j) == before.position(j),
                forall|j: int| 0 <= j < i ==> #[trigger] self.shown(j) == before.shown_under(expr@, j),
            decreases count - i,
        {
            let empty = match graph_node_weight(&self.graph, i) {
                Some(page) => page.empty,
                None => false,
            };
            let shown = if empty {
                let around = graph_neighbors_undirected(&self.graph, i);
                assert(before.neighbors()[i as int].len() > 0);
                tested[around[0]]
            } else {
                tested[i]
            };
            let ghost prior = *self;
            self.nodes[i].visible = shown;
            assert forall|j: int| 0 <= j < i implies #[trigger] self.shown(j)
                == before.shown_under(expr@, j) by {
                assert(self.shown(j) == prior.shown(j));
            }
            i += 1;
        }
        None
    }

    /// The positions of the shown nodes, in the order of their indices.
    pub open spec fn visible_positions_spec(self) -> Seq<Vec2> {
        shown_positions(indices(self.len()), self.positions(), self.visibility())
    }

    /// The positions of the shown neighbours of node `i`, in the graph's order.
    pub open spec fn visible_neighbor_positions_spec(self, i: int) -> Seq<Vec2> {
        shown_positions(self.neighbors()[i], self.positions(), self.visibility())
    }

    /// The positions of those nodes among `ids` that are shown.
    fn positions_of_shown(&self, ids: &Vec<usize>) -> (list: Vec<Vec2>)
        requires
            forall|k: int| 0 <= k < ids@.len() ==> #[trigger] ids@[k] < self.len(),
        ensures
            list@ == shown_positions(ids@, self.positions(), self.visibility()),
    {
        proof {
            use_type_invariant(self);
        }
        let mut list: Vec<Vec2> = Vec::new();
        let mut k: usize = 0;
        while k < ids.len()
            invariant
                k <= ids@.len(),
                self.nodes@.len() == self.len(),
                forall|j: int| 0 <= j < ids@.len() ==> #[trigger] ids@[j] < self.len(),
                list@ == shown_positions(ids@.take(k as int), self.positions(), self.visibility()),
            decreases ids@.len() - k,
        {
            assert(ids@.take(k + 1).drop_last() == ids@.take(k as int));
            let id = ids[k];
            if self.nodes[id].visible {
                list.push(self.nodes[id].frame_pos);
            }
            k += 1;
        }
        assert(ids@.take(ids@.len() as int) == ids@);
        list
    }

    /// The positions of the shown nodes, in the order of their indices.
    pub fn visible_positions(&self) -> (list: Vec<Vec2>)
        ensures
            list@ == self.visible_positions_spec(),
    {
        let count = graph_node_count(&self.graph);
        let mut ids: Vec<usize> = Vec::new();
        let mut i: usize = 0;
        while i < count
            invariant
                i <= count == self.len(),
                ids@ == indices(i as nat),
            decreases count - i,
        {
            ids.push(i);
            assert(ids@ =~= indices((i + 1) as nat));
            i += 1;
        }
        self.positions_of_shown(&ids)
    }

    /// The positions of the shown neighbours of node `index`, in the graph's order.
    pub fn visible_neighbor_positions(&self, index: usize) -> (list: Vec<Vec2>)
        requires
            index < self.len(),
        ensures
            list@ == self.visible_neighbor_positions_spec(index as int),
    {
        let count = graph_node_count(&self.graph);
        let around = graph_neighbors_undirected(&self.graph, index);
        self.positions_of_shown(&around)
    }

    /// `after` lays out the same graph and shows the same nodes as this layout,
    /// and has every hidden node where it is here.
    pub open spec fn keeps_hidden(self, after: GraphView) -> bool {
        &&& after.graph() == self.graph()
        &&& forall|i: int| 0 <= i < self.len() ==> after.shown(i) == self.shown(i)
        &&& forall|i: int|
            0 <= i < self.len() && !self.shown(i) ==> after.position(i) == self.position(i)
    }

    /// `near` and `all` are what a step hands to the rule for node `i`: the
    /// positions of its shown neighbours and those of all shown nodes.
    pub open spec fn step_input(self, i: int, near: Vec<Vec2>, all: Vec<Vec2>) -> bool {
        &&& near@ == self.visible_neighbor_positions_spec(i)
        &&& all@ == self.visible_positions_spec()
    }

    /// Advances the layout by one step.
    ///
    /// `rule` gives the next position of a node from its position, the positions
    /// of its shown neighbours and the positions of all shown nodes. Every shown
    /// node moves to what `rule` gives for the positions before the step. A hidden
    /// node stays where it is and is handed to no rule.
    pub fn physics_timestep<F: Fn(Vec2, &Vec<Vec2>, &Vec<Vec2>) -> Vec2>(&mut self, rule: F)
        requires
            forall|i: int, near: Vec<Vec2>, all: Vec<Vec2>|
                0 <= i < old(self).len() && old(self).shown(i) && #[trigger] old(self).step_input(
                    i,
                    near,
                    all,
                ) ==> call_requires(rule, (old(self).position(i), &near, &all)),
        ensures
            old(self).keeps_hidden(*final(self)),
            forall|i: int|
                0 <= i < old(self).len() && old(self).shown(i) ==> old(self).moved_by(
                    rule,
                    i,
                    #[trigger] final(self).position(i),
                ),
    {
        proof {
            use_type_invariant(&*self);
        }
        let ghost before = *self;
        let count = graph_node_count(&self.graph);
        let all = self.visible_positions();
        let mut moved: Vec<Vec2> = Vec::new();
        let mut i: usize = 0;
        while i < count
            invariant
                *self == before,
                i <= count == self.len(),
                count == self.nodes@.len(),
                all@ == before.visible_positions_spec(),
                forall|j: int, near: Vec<Vec2>, all: Vec<Vec2>|
                    0 <= j < before.len() && before.shown(j) && #[trigger] before.step_input(
                        j,
                        near,
                        all,
                    ) ==> call_requires(rule, (before.position(j), &near, &all)),
                moved@.len() == i,
                forall|j: int|
                    0 <= j < i && !before.shown(j) ==> #[trigger] moved@[j] == before.position(j),
                forall|j: int|
                    0 <= j < i && before.shown(j) ==> before.moved_by(rule, j, #[trigger] moved@[j]),
            decreases count - i,
        {
            if self.nodes[i].visible {
                let near = self.visible_neighbor_positions(i);
                assert(before.step_input(i as int, near, all));
                let target = rule(self.nodes[i].frame_pos, &near, &all);
                moved.push(target);
            } else {
                moved.push(self.nodes[i].frame_pos);
            }
            i += 1;
        }
        let mut i: usize = 0;
        while i < count
            invariant
                self.graph() == before.graph(),
                i <= count == before.len(),
                count == self.nodes@.len(),
                count == before.neighbors().len(),
                moved@.len() == count,
                forall|j: int| 0 <= j < count ==> self.shown(j) == before.shown(j),
                forall|j: int| 0 <= j < i ==> #[trigger] self.position(j) == moved@[j],
                forall|j: int| i <= j < count ==> #[trigger] self.position(j) == before.position(j),
            decreases count - i,
        {
            let ghost prior = *self;
            self.nodes[i].frame_pos = moved[i];
            assert forall|j: int| 0 <= j < count && j != i implies #[trigger] self.position(j)
                == prior.position(j) by {}
            assert forall|j: int| 0 <= j < count implies self.shown(j) == before.shown(j) by {
                assert(self.shown(j) == prior.shown(j));
            }
            i += 1;
        }
    }

    /// `rule` may give `target` as the next position of node `i`.
    pub open spec fn moved_by<F: Fn(Vec2, &Vec<Vec2>, &Vec<Vec2>) -> Vec2>(
        self,
        rule: F,
        i: int,
        target: Vec2,
    ) -> bool {
        exists|near: Vec<Vec2>, all: Vec<Vec2>| #[trigger]
            self.step_input(i, near, all) && call_ensures(
                rule,
                (self.position(i), &near, &all),
                target,
            )
    }
}

} // verus!
