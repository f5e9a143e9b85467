//! The circuit's directed edges, kept in a petgraph `Graph`.
use vstd::prelude::*;
use petgraph::graph::{Graph, NodeIndex, EdgeIndex};
use petgraph::Directed;

verus! {

/// The payload of an edge: edges carry no data.
#[derive(Debug, Clone, Copy)]
pub struct RtlEdge;

#[verifier::external_type_specification]
#[verifier::external_body]
#[verifier::reject_recursive_types(N)]
#[verifier::reject_recursive_types(E)]
#[verifier::reject_recursive_types(Ty)]
#[verifier::reject_recursive_types(Ix)]
pub struct ExGraph<N, E, Ty, Ix>(Graph<N, E, Ty, Ix>);

#[verifier::external_type_specification]
#[verifier::external_body]
pub struct ExDirected(Directed);

/// The graph type that holds a circuit's topology.
pub type RtlGraph = Graph<(), RtlEdge, Directed, u32>;

/// The edges of a graph, as (source, target) pairs in order of insertion.
pub uninterp spec fn graph_edges(g: RtlGraph) -> Seq<(usize, usize)>;

/// The number of nodes of a graph.
pub uninterp spec fn graph_node_count(g: RtlGraph) -> nat;

/// Relies on `Graph::new`: a new graph has no nodes and no edges.
#[verifier::external_body]
pub(crate) fn graph_new() -> (g: RtlGraph)
    ensures
        graph_edges(g) == Seq::<(usize, usize)>::empty(),
        graph_node_count(g) == 0,
{
    Graph::new()
}

/// Relies on `Graph::add_node`: the new node's index is the old node count;
/// the call panics when that count is `u32::MAX`.
#[verifier::external_body]
pub(crate) fn graph_add_node(g: &mut RtlGraph) -> (r: usize)
    requires
        graph_node_count(*old(g)) < u32::MAX,
    ensures
        r == graph_node_count(*old(g)),
        graph_node_count(*final(g)) == graph_node_count(*old(g)) + 1,
        graph_edges(*final(g)) == graph_edges(*old(g)),
{
    g.add_node(()).index()
}

/// Relies on `Graph::add_edge`: the edge is appended to the edge list and its
/// index is the old edge count; the call panics when an endpoint is not a
/// node or the edge count is `u32::MAX`.
#[verifier::external_body]
pub(crate) fn graph_add_edge(g: &mut RtlGraph, a: usize, b: usize) -> (r: usize)
    requires
        a < graph_node_count(*old(g)),
        b < graph_node_count(*old(g)),
        graph_node_count(*old(g)) <= u32::MAX,
        graph_edges(*old(g)).len() < u32::MAX,
    ensures
        r == graph_edges(*old(g)).len(),
        graph_edges(*final(g)) == graph_edges(*old(g)).push((a, b)),
        graph_node_count(*final(g)) == graph_node_count(*old(g)),
{
    g.add_edge(NodeIndex::new(a), NodeIndex::new(b), RtlEdge).index()
}

/// Relies on `Graph::edge_endpoints`: the source and target of edge `e`.
#[verifier::external_body]
pub(crate) fn graph_edge_endpoints(g: &RtlGraph, e: usize) -> (r: (usize, usize))
    requires
        e < graph_edges(*g).len(),
        graph_edges(*g).len() <= u32::MAX,
    ensures
        r.0 == graph_edges(*g)[e as int].0,
        r.1 == graph_edges(*g)[e as int].1,
{
    let (a, b) = g.edge_endpoints(EdgeIndex::new(e)).unwrap();
    (a.index(), b.index())
}

/// Relies on `Graph::edge_count`: the length of the edge list.
#[verifier::external_body]
pub(crate) fn graph_edge_count(g: &RtlGraph) -> (r: usize)
    ensures
        r == graph_edges(*g).len(),
{
    g.edge_count()
}

/// The sources of the edges into `v`, in order of insertion.
pub open spec fn parents_spec(edges: Seq<(usize, usize)>, v: usize) -> Seq<usize>
    decreases edges.len(),
{
    if edges.len() == 0 {
        Seq::empty()
    } else {
        let rest = parents_spec(edges.drop_last(), v);
        if edges.last().1 == v {
            rest.push(edges.last().0)
        } else {
            rest
        }
    }
}

/// Every edge joins two nodes of the graph, and indices fit the graph's
/// index type.
pub open spec fn graph_wf(g: RtlGraph) -> bool {
    &&& graph_node_count(g) <= u32::MAX
    &&& graph_edges(g).len() <= u32::MAX
    &&& forall|k: int|
        0 <= k < graph_edges(g).len() ==> {
            &&& (#[trigger] graph_edges(g)[k]).0 < graph_node_count(g)
            &&& graph_edges(g)[k].1 < graph_node_count(g)
        }
}

/// A parent lies among the graph's nodes.
pub proof fn lemma_parents_in_graph(edges: Seq<(usize, usize)>, v: usize, n: nat)
    requires
        forall|k: int| 0 <= k < edges.len() ==> (#[trigger] edges[k]).0 < n,
    ensures
        forall|j: int| 0 <= j < parents_spec(edges, v).len() ==> parents_spec(edges, v)[j] < n,
    decreases edges.len(),
{
    if edges.len() > 0 {
        let e = edges.drop_last();
        assert forall|k: int| 0 <= k < e.len() implies (#[trigger] e[k]).0 < n by {
            assert(e[k] == edges[k]);
        }
        lemma_parents_in_graph(e, v, n);
        assert(edges.last() == edges[edges.len() - 1]);
        let rest = parents_spec(e, v);
        if edges.last().1 == v {
            assert forall|j: int| 0 <= j < parents_spec(edges, v).len() implies parents_spec(edges, v)[j] < n by {
                if j < rest.len() {
                    assert(parents_spec(edges, v)[j] == rest[j]);
                }
            }
        }
    }
}

/// The parents of `v`, in order of edge insertion.
pub fn parents_of(g: &RtlGraph, v: usize) -> (r: Vec<usize>)
    requires
        graph_wf(*g),
    ensures
        r@ == parents_spec(graph_edges(*g), v),
{
    let n = graph_edge_count(g);
    let mut r: Vec<usize> = Vec::new();
    let mut k: usize = 0;
    while k < n
        invariant
            graph_wf(*g),
            n == graph_edges(*g).len(),
            k <= n,
            r@ == parents_spec(graph_edges(*g).take(k as int), v),
        decreases n - k,
    {
        let (a, b) = graph_edge_endpoints(g, k);
        let ghost es = graph_edges(*g);
        assert(es.take(k as int + 1).drop_last() =~= es.take(k as int));
        if b == v {
            r.push(a);
        }
        k = k + 1;
    }
    assert(graph_edges(*g).take(n as int) =~= graph_edges(*g));
    r
}

} // verus!
