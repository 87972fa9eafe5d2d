//! What holds of the layout whatever rule moves the nodes.

use crate::shown_positions;
use crate::GraphView;
use vstd::prelude::*;

verus! {

/// The numbers below `count`, in order.
pub open spec fn indices(count: nat) -> Seq<usize> {
    Seq::new(count, |i: int| i as usize)
}

/// `a` and `b` lay out the same graph, show the same nodes and have every shown
/// node at the same position.
pub open spec fn same_but_hidden(a: GraphView, b: GraphView) -> bool {
    &&& a.graph() == b.graph()
    &&& forall|i: int| 0 <= i < a.len() ==> a.shown(i) == b.shown(i)
    &&& forall|i: int| 0 <= i < a.len() && a.shown(i) ==> a.position(i) == b.position(i)
}

/// Every one of `ids` is below `count`.
pub open spec fn all_below(ids: Seq<usize>, count: nat) -> bool {
    forall|k: int| 0 <= k < ids.len() ==> #[trigger] ids[k] < count
}

/// The shown positions among `ids` do not depend on where hidden nodes are.
proof fn lemma_shown_positions_same(a: GraphView, b: GraphView, ids: Seq<usize>)
    requires
        same_but_hidden(a, b),
        all_below(ids, a.len()),
    ensures
        shown_positions(ids, a.positions(), a.visibility()) == shown_positions(
            ids,
            b.positions(),
            b.visibility(),
        ),
    decreases ids.len(),
{
    if ids.len() > 0 {
        let rest = ids.drop_last();
        assert forall|k: int| 0 <= k < rest.len() implies #[trigger] rest[k] < a.len() by {
            assert(rest[k] == ids[k]);
        }
        lemma_shown_positions_same(a, b, rest);
        let id = ids.last() as int;
        assert(ids[ids.len() - 1] < a.len());
        assert(a.visibility()[id] == a.shown(id));
        assert(b.visibility()[id] == b.shown(id));
        assert(a.positions()[id] == a.position(id));
        assert(b.positions()[id] == b.position(id));
    }
}

/// Where a hidden node stands has no part in what a step hands to the rule:
/// two layouts that differ in the positions of hidden nodes only give the same
/// positions of all shown nodes, and of the shown neighbours of each node.
pub proof fn lemma_hidden_nodes_are_left_out(a: GraphView, b: GraphView, i: int)
    requires
        same_but_hidden(a, b),
        0 <= i < a.len(),
        all_below(a.neighbors()[i], a.len()),
    ensures
        a.visible_positions_spec() == b.visible_positions_spec(),
        a.visible_neighbor_positions_spec(i) == b.visible_neighbor_positions_spec(i),
{
    lemma_shown_positions_same(a, b, indices(a.len()));
    lemma_shown_positions_same(a, b, a.neighbors()[i]);
}

/// A hidden node stays where it is however many steps are taken: in a run of
/// layouts of which each keeps the hidden nodes of the one before, a node that
/// is hidden in the first is hidden in the last, at the same position.
pub proof fn lemma_hidden_node_stays(run: Seq<GraphView>, i: int)
    requires
        run.len() > 0,
        forall|k: int| 0 <= k < run.len() - 1 ==> #[trigger] run[k].keeps_hidden(run[k + 1]),
        0 <= i < run[0].len(),
        !run[0].shown(i),
    ensures
        run.last().graph() == run[0].graph(),
        !run.last().shown(i),
        run.last().position(i) == run[0].position(i),
    decreases run.len(),
{
    if run.len() > 1 {
        let before = run.drop_last();
        assert forall|k: int| 0 <= k < before.len() - 1 implies #[trigger] before[k].keeps_hidden(
            before[k + 1],
        ) by {
            assert(run[k].keeps_hidden(run[k + 1]));
        }
        lemma_hidden_node_stays(before, i);
        assert(run[run.len() - 2].keeps_hidden(run[run.len() - 2 + 1]));
    }
}

} // verus!
