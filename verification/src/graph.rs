//! The dependency graph, kept in a `daggy::Dag` whose nodes weigh the index of a
//! recipe in the recipe store.
use daggy::Dag;
use daggy::Walker;
use vstd::prelude::*;

verus! {

/// A `daggy::Dag` whose node weights are recipe indices, seen only through its node
/// weights and its edges.
#[verifier::external_body]
pub struct DependencyGraph {
    graph: Dag<usize, (), usize>,
}

/// The node weights of a graph, in the order of their node indices.
pub uninterp spec fn graph_nodes(graph: DependencyGraph) -> Seq<usize>;

/// The edges of a graph, as pairs of node indices, in the order they were added.
pub uninterp spec fn graph_edges(graph: DependencyGraph) -> Seq<(int, int)>;

/// Whether an edge leads from the `i`-th node of `path` to the next.
pub open spec fn walk_step(edges: Seq<(int, int)>, path: Seq<int>, i: int) -> bool {
    edges.contains((path[i], path[i + 1]))
}

/// Whether `path` is a walk along `edges` (a single node is one).
pub open spec fn is_path(edges: Seq<(int, int)>, path: Seq<int>) -> bool {
    path.len() >= 1 && forall|i: int| 0 <= i < path.len() - 1 ==> #[trigger] walk_step(edges, path, i)
}

/// Whether `to` can be reached from `from` along `edges`, in zero or more steps.
pub open spec fn reaches(edges: Seq<(int, int)>, from: int, to: int) -> bool {
    exists|path: Seq<int>| is_path(edges, path) && path[0] == from && path.last() == to
}

/// Whether no walk of one or more steps along `edges` returns to where it started.
pub open spec fn acyclic(edges: Seq<(int, int)>) -> bool {
    forall|path: Seq<int>|
        #[trigger] is_path(edges, path) && path.len() >= 2 ==> path[0] != path.last()
}

/// Calls `Dag::new`: a graph without nodes or edges.
#[verifier::external_body]
pub(crate) fn new_graph() -> (r: DependencyGraph)
    ensures
        graph_nodes(r) == Seq::<usize>::empty(),
        graph_edges(r) == Seq::<(int, int)>::empty(),
{
    DependencyGraph { graph: Dag::new() }
}

/// Calls `Dag::add_node`: the weight is appended as the node with the next index,
/// which is returned; the edges stay as they are.
#[verifier::external_body]
pub(crate) fn graph_add_node(graph: &mut DependencyGraph, weight: usize) -> (r: usize)
    ensures
        graph_nodes(*final(graph)) == graph_nodes(*old(graph)).push(weight),
        graph_edges(*final(graph)) == graph_edges(*old(graph)),
        r == graph_nodes(*old(graph)).len(),
{
    graph.graph.add_node(weight).index()
}

/// Calls `Dag::add_edge` for the edge from `a` to `b`. The contract claims what the
/// crate documents: in an acyclic graph the edge is refused (`false`) exactly when it
/// would close a cycle, that is when `a` can already be reached from `b`; otherwise it
/// is added; and the graph stays acyclic.
#[verifier::external_body]
pub(crate) fn graph_add_edge(graph: &mut DependencyGraph, a: usize, b: usize) -> (r: bool)
    requires
        a < graph_nodes(*old(graph)).len(),
        b < graph_nodes(*old(graph)).len(),
    ensures
        graph_nodes(*final(graph)) == graph_nodes(*old(graph)),
        acyclic(graph_edges(*old(graph))) ==> r == !reaches(
            graph_edges(*old(graph)),
            b as int,
            a as int,
        ),
        graph_edges(*final(graph)) == if r {
            graph_edges(*old(graph)).push((a as int, b as int))
        } else {
            graph_edges(*old(graph))
        },
        acyclic(graph_edges(*old(graph))) ==> acyclic(graph_edges(*final(graph))),
{
    graph.graph.add_edge(daggy::NodeIndex::new(a), daggy::NodeIndex::new(b), ()).is_ok()
}

/// Calls `Dag::children` and walks it: the nodes that edges from `parent` lead to.
#[verifier::external_body]
pub(crate) fn graph_children(graph: &DependencyGraph, parent: usize) -> (r: Vec<usize>)
    requires
        parent < graph_nodes(*graph).len(),
    ensures
        forall|child: usize| #[trigger]
            r@.contains(child) <==> graph_edges(*graph).contains((parent as int, child as int)),
{
    graph.graph.children(daggy::NodeIndex::new(parent)).iter(&graph.graph).map(|(_edge, child)| child.index()).collect()
}

} // verus!
