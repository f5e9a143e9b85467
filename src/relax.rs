//! One relaxation pass: every element whose parents all have a value this
//! cycle, and that is not yet settled, is evaluated from a snapshot of the
//! cycle's values.
use vstd::prelude::*;
use crate::value::{Value, comb_spec, compute_comb_logic};
use crate::node::{
    NodeKind, NodeType, RtlNode, type_of, is_state, mem_write,
};
use crate::simulator::RtlSimulator;

verus! {

/// Each parent is an element and has a value this cycle.
pub open spec fn all_present(cur: Seq<Option<Value>>, ps: Seq<usize>) -> bool {
    forall|j: int|
        0 <= j < ps.len() ==> ps[j] < cur.len() && (#[trigger] cur[ps[j] as int]) is Some
}

/// The parents' values this cycle, in parent order.
pub open spec fn parent_vals(cur: Seq<Option<Value>>, ps: Seq<usize>) -> Seq<Value> {
    Seq::new(ps.len(), |j: int| cur[ps[j] as int]->Some_0)
}

/// An element is evaluated in a pass when its parents all have values and
/// it has none yet, or it holds state (registers and memory arrays).
pub open spec fn eligible(t: NodeType, ps: Seq<usize>, cur: Seq<Option<Value>>, v: int) -> bool {
    (cur[v] is None || is_state(t)) && all_present(cur, ps)
}

/// The value of element `v` after a pass over the snapshot `cur`.
pub open spec fn relaxed_value(k: NodeKind, ps: Seq<usize>, cur: Seq<Option<Value>>, v: int) -> Option<Value> {
    if !eligible(type_of(k), ps, cur, v) {
        cur[v]
    } else {
        match k {
            NodeKind::Reg(init) => if ps.len() == 0 { Some(init) } else { cur[ps[0] as int] },
            NodeKind::Output => if ps.len() == 0 { cur[v] } else { cur[ps[0] as int] },
            NodeKind::Comb(op) => Some(comb_spec(op, parent_vals(cur, ps))),
            _ => cur[v],
        }
    }
}

/// A pass also stores the value it gives a register, or an output with a
/// parent, as that element's committed value.
pub open spec fn stores_in_pass(k: NodeKind, ps: Seq<usize>, cur: Seq<Option<Value>>, v: int) -> bool {
    &&& eligible(type_of(k), ps, cur, v)
    &&& (k is Reg || (k is Output && ps.len() > 0))
}

/// A memory array writes its first parent's value in every pass in which
/// its parents all have values.
pub open spec fn writes_in_pass(k: NodeKind, ps: Seq<usize>, cur: Seq<Option<Value>>) -> bool {
    k is Sram && ps.len() > 0 && all_present(cur, ps)
}

/// Element `n` is element `o` after a pass over `cur`: a memory array that
/// writes has its write applied, and everything else is unchanged.
pub open spec fn relaxed_node(o: RtlNode, n: RtlNode, ps: Seq<usize>, cur: Seq<Option<Value>>) -> bool {
    if writes_in_pass(o.kind, ps, cur) {
        let s = o.kind->Sram_0;
        &&& n.name == o.name
        &&& n.kind is Sram
        &&& n.kind->Sram_0.memory@ == mem_write(s.memory@, s.write_addr, cur[ps[0] as int]->Some_0)
        &&& n.kind->Sram_0.rdaddr_buffer@ == s.rdaddr_buffer@
        &&& n.kind->Sram_0.read_latency == s.read_latency
        &&& n.kind->Sram_0.read_addr == s.read_addr
        &&& n.kind->Sram_0.write_addr == s.write_addr
    } else {
        n == o
    }
}

/// Whether every parent has a value this cycle.
pub fn parents_present(cur: &Vec<Option<Value>>, ps: &Vec<usize>) -> (r: bool)
    ensures
        r == all_present(cur@, ps@),
{
    let mut j: usize = 0;
    while j < ps.len()
        invariant
            j <= ps@.len(),
            forall|i: int| 0 <= i < j ==> ps@[i] < cur@.len() && (#[trigger] cur@[ps@[i] as int]) is Some,
        decreases ps@.len() - j,
    {
        let p = ps[j];
        if p >= cur.len() || cur[p].is_none() {
            assert(!(ps@[j as int] < cur@.len() && cur@[ps@[j as int] as int] is Some));
            return false;
        }
        j = j + 1;
    }
    true
}

/// The parents' values, in parent order.
pub fn gather_parent_vals(cur: &Vec<Option<Value>>, ps: &Vec<usize>) -> (r: Vec<Value>)
    requires
        all_present(cur@, ps@),
    ensures
        r@ == parent_vals(cur@, ps@),
{
    let mut r: Vec<Value> = Vec::new();
    let mut j: usize = 0;
    while j < ps.len()
        invariant
            j <= ps@.len(),
            all_present(cur@, ps@),
            r@ == parent_vals(cur@, ps@).take(j as int),
        decreases ps@.len() - j,
    {
        let p = ps[j];
        assert(cur@[ps@[j as int] as int] is Some);
        match cur[p] {
            Some(x) => r.push(x),
            None => {},
        }
        j = j + 1;
        assert(r@ =~= parent_vals(cur@, ps@).take(j as int));
    }
    assert(parent_vals(cur@, ps@).take(j as int) =~= parent_vals(cur@, ps@));
    r
}

/// `pars` lists the parents of every element of the circuit.
pub open spec fn parents_table(sim: RtlSimulator, pars: Seq<Vec<usize>>) -> bool {
    &&& pars.len() == sim.nodes@.len()
    &&& forall|v: int| 0 <= v < pars.len() ==> (#[trigger] pars[v])@ == sim.parents(v as usize)
}

impl RtlSimulator {
    /// One relaxation pass over the cycle's values `cur`: each element's
    /// new value is computed from the values as they stood before the pass.
    pub fn record_out(&mut self, cur: &mut Vec<Option<Value>>, pars: &Vec<Vec<usize>>)
        requires
            old(self).wf(),
            old(cur)@.len() == old(self).nodes@.len(),
            parents_table(*old(self), pars@),
        ensures
            final(self).wf(),
            final(self).graph == old(self).graph,
            final(self).values@.len() == old(self).values@.len(),
            final(self).nodes@.len() == old(self).nodes@.len(),
            final(cur)@.len() == old(cur)@.len(),
            forall|v: int| 0 <= v < old(cur)@.len() ==> #[trigger] final(self).values@[v] == if stores_in_pass(
                old(self).nodes@[v].kind, old(self).parents(v as usize), old(cur)@, v) {
                final(cur)@[v]
            } else {
                old(self).values@[v]
            },
            forall|v: int| 0 <= v < old(cur)@.len() ==> #[trigger] final(cur)@[v] == relaxed_value(
                old(self).nodes@[v].kind, old(self).parents(v as usize), old(cur)@, v),
            forall|v: int| 0 <= v < old(cur)@.len() ==> relaxed_node(
                old(self).nodes@[v], #[trigger] final(self).nodes@[v], old(self).parents(v as usize), old(cur)@),
    {
        let n = self.nodes.len();
        let mut next: Vec<Option<Value>> = Vec::new();
        let mut v: usize = 0;
        while v < n
            invariant
                n == self.nodes@.len(),
                n == old(self).nodes@.len(),
                cur@.len() == n,
                *cur == *old(cur),
                parents_table(*old(self), pars@),
                self.graph == old(self).graph,
                self.values@.len() == n,
                old(self).wf(),
                v <= n,
                next@.len() == v,
                forall|u: int| 0 <= u < v ==> #[trigger] self.values@[u] == if stores_in_pass(
                    old(self).nodes@[u].kind, old(self).parents(u as usize), cur@, u) {
                    next@[u]
                } else {
                    old(self).values@[u]
                },
                forall|u: int| v <= u < n ==> #[trigger] self.values@[u] == old(self).values@[u],
                forall|u: int| 0 <= u < v ==> #[trigger] next@[u] == relaxed_value(
                    old(self).nodes@[u].kind, old(self).parents(u as usize), cur@, u),
                forall|u: int| 0 <= u < v ==> relaxed_node(
                    old(self).nodes@[u], #[trigger] self.nodes@[u], old(self).parents(u as usize), cur@),
                forall|u: int| v <= u < n ==> #[trigger] self.nodes@[u] == old(self).nodes@[u],
            decreases n - v,
        {
            let ps = &pars[v];
            assert(ps@ == old(self).parents(v));
            let present = parents_present(cur, ps);
            let t = self.nodes[v].node_type();
            let elig = (cur[v].is_none() || t == NodeType::Reg || t == NodeType::Sram) && present;
            let nv: Option<Value> = if !elig {
                cur[v]
            } else {
                match &self.nodes[v].kind {
                    NodeKind::Reg(init) => if ps.len() == 0 { Some(*init) } else { cur[ps[0]] },
                    NodeKind::Output => if ps.len() == 0 { cur[v] } else { cur[ps[0]] },
                    NodeKind::Comb(op) => {
                        let vals = gather_parent_vals(cur, ps);
                        Some(compute_comb_logic(*op, &vals))
                    },
                    _ => cur[v],
                }
            };
            if t == NodeType::Sram && ps.len() > 0 && present {
                assert(cur@[ps@[0] as int] is Some);
                let w = match cur[ps[0]] {
                    Some(x) => x,
                    None => Value::X,
                };
                match &mut self.nodes[v].kind {
                    NodeKind::Sram(s) => s.write_port(w),
                    _ => {},
                }
            }
            let stores = elig && (t == NodeType::Reg || (t == NodeType::Output && ps.len() > 0));
            if stores {
                self.values.set(v, nv);
            }
            next.push(nv);
            v = v + 1;
        }
        *cur = next;
        proof {
            let m = self.nodes@;
            assert forall|a: int, b: int| 0 <= a < b < m.len() implies
                #[trigger] m[a].name@ != #[trigger] m[b].name@ by {
                assert(m[a].name == old(self).nodes@[a].name);
                assert(m[b].name == old(self).nodes@[b].name);
            }
        }
    }
}

} // verus!
