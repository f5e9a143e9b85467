//! A circuit and the state that persists between its cycles.
use vstd::prelude::*;
use crate::value::Value;
use crate::node::RtlNode;
use crate::topology::{
    RtlGraph, graph_edges, graph_node_count, graph_wf, parents_spec, graph_new,
    graph_add_node, graph_add_edge, parents_of,
};

verus! {

/// Why a circuit could not be extended.
#[derive(Debug, Clone, Copy, PartialEq, Eq, Structural)]
pub enum SimError {
    /// A node of that name is already present.
    DuplicateName,
    /// An edge names a node that is not present.
    UnknownNode,
}

/// A circuit: its topology, its elements (indexed like the graph's nodes),
/// and the value that each element last committed.
#[derive(Debug)]
pub struct RtlSimulator {
    pub graph: RtlGraph,
    pub nodes: Vec<RtlNode>,
    pub values: Vec<Option<Value>>,
}

impl RtlSimulator {
    /// The graph, the elements and the committed values agree in size,
    /// every edge joins two elements, and names are unique.
    pub open spec fn wf(&self) -> bool {
        &&& graph_wf(self.graph)
        &&& graph_node_count(self.graph) == self.nodes@.len()
        &&& self.values@.len() == self.nodes@.len()
        &&& forall|i: int, j: int|
            0 <= i < j < self.nodes@.len() ==> #[trigger] self.nodes@[i].name@
                != #[trigger] self.nodes@[j].name@
    }

    /// The edges, as (source, target) pairs in order of insertion.
    pub open spec fn edges(&self) -> Seq<(usize, usize)> {
        graph_edges(self.graph)
    }

    /// The parents of `v`, in order of edge insertion.
    pub open spec fn parents(&self, v: usize) -> Seq<usize> {
        parents_spec(self.edges(), v)
    }

    /// Some element is called `name`.
    pub open spec fn has_name(&self, name: Seq<char>) -> bool {
        exists|i: int| 0 <= i < self.nodes@.len() && #[trigger] self.nodes@[i].name@ == name
    }

    /// An empty circuit.
    pub fn new() -> (r: RtlSimulator)
        ensures
            r.wf(),
            r.nodes@.len() == 0,
            r.edges().len() == 0,
    {
        RtlSimulator { graph: graph_new(), nodes: Vec::new(), values: Vec::new() }
    }

    /// The index of the element called `name`, if there is one.
    pub fn find_node(&self, name: &str) -> (r: Option<usize>)
        ensures
            match r {
                Some(i) => i < self.nodes@.len() && self.nodes@[i as int].name@ == name@,
                None => !self.has_name(name@),
            },
    {
        let key = name.to_owned();
        let mut i: usize = 0;
        while i < self.nodes.len()
            invariant
                i <= self.nodes@.len(),
                key@ == name@,
                forall|j: int| 0 <= j < i ==> self.nodes@[j].name@ != name@,
            decreases self.nodes@.len() - i,
        {
            if self.nodes[i].name == key {
                return Some(i);
            }
            i = i + 1;
        }
        None
    }

    /// Adds an element and returns its index; fails with `DuplicateName`,
    /// changing nothing, when an element of that name is present.
    pub fn add_node(&mut self, node: RtlNode) -> (r: Result<usize, SimError>)
        requires
            old(self).wf(),
            old(self).nodes@.len() < u32::MAX,
        ensures
            final(self).wf(),
            r is Err <==> old(self).has_name(node.name@),
            match r {
                Err(e) => e == SimError::DuplicateName && *final(self) == *old(self),
                Ok(i) => {
                    &&& i == old(self).nodes@.len()
                    &&& final(self).nodes@ == old(self).nodes@.push(node)
                    &&& final(self).values@ == old(self).values@.push(None)
                    &&& final(self).edges() == old(self).edges()
                },
            },
    {
        if self.find_node(node.name.as_str()).is_some() {
            return Err(SimError::DuplicateName);
        }
        let i = graph_add_node(&mut self.graph);
        self.nodes.push(node);
        self.values.push(None);
        proof {
            let n = self.nodes@;
            assert forall|k: int| 0 <= k < graph_edges(self.graph).len() implies
                (#[trigger] graph_edges(self.graph)[k]).0 < graph_node_count(self.graph)
                && graph_edges(self.graph)[k].1 < graph_node_count(self.graph) by {
                assert(graph_edges(self.graph)[k] == graph_edges(old(self).graph)[k]);
            }
            assert forall|a: int, b: int| 0 <= a < b < n.len() implies
                #[trigger] n[a].name@ != #[trigger] n[b].name@ by {
                if b == n.len() - 1 {
                    assert(n[a] == old(self).nodes@[a]);
                }
                else {
                    assert(n[a] == old(self).nodes@[a]);
                    assert(n[b] == old(self).nodes@[b]);
                }
            }
        }
        Ok(i)
    }

    /// Adds an edge from the element called `src_name` to the one called
    /// `dst_name` and returns its index; fails with `UnknownNode`, changing
    /// nothing, when either is absent.
    pub fn add_edge(&mut self, src_name: &str, dst_name: &str) -> (r: Result<usize, SimError>)
        requires
            old(self).wf(),
            old(self).edges().len() < u32::MAX,
        ensures
            final(self).wf(),
            r is Err <==> !(old(self).has_name(src_name@) && old(self).has_name(dst_name@)),
            match r {
                Err(e) => e == SimError::UnknownNode && *final(self) == *old(self),
                Ok(k) => {
                    &&& k == old(self).edges().len()
                    &&& final(self).nodes == old(self).nodes
                    &&& final(self).values == old(self).values
                    &&& exists|a: int, b: int|
                        0 <= a < old(self).nodes@.len() && 0 <= b < old(self).nodes@.len()
                        && #[trigger] old(self).nodes@[a].name@ == src_name@
                        && #[trigger] old(self).nodes@[b].name@ == dst_name@
                        && final(self).edges() == old(self).edges().push((a as usize, b as usize))
                },
            },
    {
        let a = match self.find_node(src_name) {
            Some(a) => a,
            None => return Err(SimError::UnknownNode),
        };
        let b = match self.find_node(dst_name) {
            Some(b) => b,
            None => return Err(SimError::UnknownNode),
        };
        let k = graph_add_edge(&mut self.graph, a, b);
        proof {
            let es = graph_edges(self.graph);
            assert forall|j: int| 0 <= j < es.len() implies
                (#[trigger] es[j]).0 < graph_node_count(self.graph)
                && es[j].1 < graph_node_count(self.graph) by {
                if j < es.len() - 1 {
                    assert(es[j] == graph_edges(old(self).graph)[j]);
                }
            }
            assert(old(self).nodes@[a as int].name@ == src_name@);
            assert(old(self).nodes@[b as int].name@ == dst_name@);
        }
        Ok(k)
    }

    /// The parents of `v`, in order of edge insertion.
    pub fn get_parents(&self, v: usize) -> (r: Vec<usize>)
        requires
            self.wf(),
        ensures
            r@ == self.parents(v),
    {
        parents_of(&self.graph, v)
    }
}

} // verus!
