//! One simulation cycle: wavefront by wavefront levelling, interleaved with
//! relaxation passes, then the commit of the cycle's values.
use vstd::prelude::*;
use crate::value::Value;
use crate::node::{
    NodeKind, NodeType, RtlNode, is_anchor, sram_read_value, sram_next_buffer, mem_write,
};
use crate::simulator::RtlSimulator;
use crate::topology::{graph_edges, parents_of, parents_spec, lemma_parents_in_graph};
use crate::relax::{parents_table, relaxed_value, relaxed_node, writes_in_pass, stores_in_pass};
use crate::levels::{
    node_types, levelled, all_levelled, ready, node_level_sound, levels_sound,
    levels_complete, count_none, lemma_count_none_mono, lemma_count_none_pos, lemma_count_none_lt,
    levels_bounded, frontier_waits, waits_on, lemma_next_wavefront,
    wavefront_count, lemma_wavefront_count,
};

verus! {

/// The value an element starts the cycle with, at wavefront 0: an input
/// its driven value; a register its first parent's driven value when that
/// parent is an input, else its initial value; a memory array what its
/// read port gives. Other elements start without a value.
pub open spec fn seed_value(nodes: Seq<RtlNode>, ps: Seq<usize>, k: NodeKind) -> Option<Value> {
    match k {
        NodeKind::Input(x) => Some(x),
        NodeKind::Reg(init) => if ps.len() > 0 && nodes[ps[0] as int].kind is Input {
            Some(nodes[ps[0] as int].kind->Input_0)
        } else {
            Some(init)
        },
        NodeKind::Sram(s) => Some(sram_read_value(s)),
        _ => None,
    }
}

/// Element `n` is element `o` after the start of a cycle: a memory array
/// has advanced its pending reads; everything else is unchanged.
pub open spec fn seeded_node(o: RtlNode, n: RtlNode) -> bool {
    if o.kind is Sram {
        let s = o.kind->Sram_0;
        &&& n.name == o.name
        &&& n.kind is Sram
        &&& n.kind->Sram_0.memory@ == s.memory@
        &&& n.kind->Sram_0.rdaddr_buffer@ == sram_next_buffer(s)
        &&& n.kind->Sram_0.read_latency == s.read_latency
        &&& n.kind->Sram_0.read_addr == s.read_addr
        &&& n.kind->Sram_0.write_addr == s.write_addr
    } else {
        n == o
    }
}

/// A memory array's configuration is that of `o`, with the pending reads
/// advanced by one cycle.
pub open spec fn sram_advanced(o: RtlNode, n: RtlNode) -> bool {
    let s = o.kind->Sram_0;
    &&& n.name == o.name
    &&& n.kind is Sram
    &&& n.kind->Sram_0.rdaddr_buffer@ == sram_next_buffer(s)
    &&& n.kind->Sram_0.read_latency == s.read_latency
    &&& n.kind->Sram_0.read_addr == s.read_addr
    &&& n.kind->Sram_0.write_addr == s.write_addr
}

/// What holds of element `o` (as it was when the cycle began), its state
/// `n` now and its value `c` this cycle, at every wavefront: inputs show
/// their driven value, a register without a parent its initial value, and
/// a memory array the value its read port gave; only memory arrays change.
pub open spec fn node_state_ok(o: RtlNode, n: RtlNode, ps: Seq<usize>, c: Option<Value>) -> bool {
    match o.kind {
        NodeKind::Input(x) => n == o && c == Some(x),
        NodeKind::Reg(init) => n == o && (ps.len() == 0 ==> c == Some(init)),
        NodeKind::Sram(s) => sram_advanced(o, n) && c == Some(sram_read_value(s)),
        _ => n == o,
    }
}

/// Every element's wavefront-0 value.
pub open spec fn seed_values(s: RtlSimulator) -> Seq<Option<Value>> {
    Seq::new(s.nodes@.len(), |v: int| seed_value(s.nodes@, s.parents(v as usize), s.nodes@[v].kind))
}

/// The cycle's values after one relaxation pass over `cur`.
pub open spec fn relax_all(s: RtlSimulator, cur: Seq<Option<Value>>) -> Seq<Option<Value>> {
    Seq::new(cur.len(), |v: int| relaxed_value(s.nodes@[v].kind, s.parents(v as usize), cur, v))
}

/// The cycle's values after `p` relaxation passes over `cur`.
pub open spec fn relax_iter(s: RtlSimulator, cur: Seq<Option<Value>>, p: nat) -> Seq<Option<Value>>
    decreases p,
{
    if p == 0 {
        cur
    } else {
        relax_all(s, relax_iter(s, cur, (p - 1) as nat))
    }
}

/// The values a cycle of `s` ends with, after `passes` relaxation passes.
pub open spec fn cycle_values(s: RtlSimulator, passes: nat) -> Seq<Option<Value>> {
    relax_iter(s, seed_values(s), passes)
}

/// The cells of memory array `v` of `s` after `p` relaxation passes: each
/// pass in which its parents all have values writes its first parent's
/// value at the write address.
pub open spec fn memory_after(s: RtlSimulator, v: int, p: nat) -> Seq<Value>
    decreases p,
{
    if p == 0 {
        s.nodes@[v].kind->Sram_0.memory@
    } else {
        let c = relax_iter(s, seed_values(s), (p - 1) as nat);
        let ps = s.parents(v as usize);
        let m = memory_after(s, v, (p - 1) as nat);
        if writes_in_pass(s.nodes@[v].kind, ps, c) {
            mem_write(m, s.nodes@[v].kind->Sram_0.write_addr, c[ps[0] as int]->Some_0)
        } else {
            m
        }
    }
}

/// The committed values: those of the cycle, and the earlier committed
/// value where the cycle gave none.
pub open spec fn commit(prev: Seq<Option<Value>>, cur: Seq<Option<Value>>) -> Seq<Option<Value>> {
    Seq::new(prev.len(), |v: int| if cur[v] is Some { cur[v] } else { prev[v] })
}

/// What one cycle does: `f` is `o` after a cycle that assigned the
/// wavefronts `levels`.
pub open spec fn cycle_result(o: RtlSimulator, f: RtlSimulator, levels: Seq<Option<usize>>) -> bool {
    &&& f.wf()
    &&& f.graph == o.graph
    &&& f.nodes@.len() == o.nodes@.len()
    &&& levels_sound(node_types(o.nodes@), o.edges(), levels)
    &&& levels_complete(node_types(o.nodes@), o.edges(), levels)
    &&& f.values@ == commit(o.values@, cycle_values(o, wavefront_count(levels)))
    &&& wavefront_count(levels) <= o.nodes@.len()
    &&& forall|v: int| 0 <= v < o.nodes@.len() ==> {
        let on = #[trigger] o.nodes@[v];
        let n = f.nodes@[v];
        let c = f.values@[v];
        match on.kind {
            NodeKind::Input(x) => n == on && c == Some(x),
            NodeKind::Reg(init) => n == on && (o.parents(v as usize).len() == 0 ==> c == Some(init)),
            NodeKind::Sram(s) => {
                &&& sram_advanced(on, n)
                &&& c == Some(sram_read_value(s))
                &&& n.kind->Sram_0.memory@ == memory_after(o, v, wavefront_count(levels))
            },
            _ => n == on,
        }
    }
}

/// A relaxation pass reads, of each element, only what stays fixed during
/// a cycle.
pub proof fn lemma_relax_all_same(s0: RtlSimulator, s: RtlSimulator, cur: Seq<Option<Value>>)
    requires
        s.graph == s0.graph,
        s.nodes@.len() == s0.nodes@.len(),
        cur.len() == s0.nodes@.len(),
        forall|v: int| 0 <= v < s0.nodes@.len() ==> {
            &&& (#[trigger] s0.nodes@[v]).kind is Sram ==> s.nodes@[v].kind is Sram
            &&& !(s0.nodes@[v].kind is Sram) ==> s.nodes@[v] == s0.nodes@[v]
        },
    ensures
        relax_all(s, cur) == relax_all(s0, cur),
{
    assert forall|v: int| 0 <= v < cur.len() implies #[trigger] relax_all(s, cur)[v] == relax_all(s0, cur)[v] by {
        assert(s0.nodes@[v].kind is Sram ==> s.nodes@[v].kind is Sram);
    }
    assert(relax_all(s, cur) =~= relax_all(s0, cur));
}

/// After a relaxation pass over the values of `passes` passes, the state
/// of the cycle is that of `passes + 1` passes.
pub proof fn lemma_after_pass(
    s0: RtlSimulator,
    sb: RtlSimulator,
    sa: RtlSimulator,
    cb: Seq<Option<Value>>,
    ca: Seq<Option<Value>>,
    passes: nat,
)
    requires
        sb.graph == s0.graph,
        sb.nodes@.len() == s0.nodes@.len(),
        sa.nodes@.len() == s0.nodes@.len(),
        cb.len() == s0.nodes@.len(),
        ca.len() == cb.len(),
        cb == relax_iter(s0, seed_values(s0), passes),
        forall|u: int| 0 <= u < cb.len() ==> #[trigger] node_state_ok(
            s0.nodes@[u], sb.nodes@[u], s0.parents(u as usize), cb[u]),
        forall|u: int| 0 <= u < cb.len() && (#[trigger] s0.nodes@[u]).kind is Sram ==>
            sb.nodes@[u].kind->Sram_0.memory@ == memory_after(s0, u, passes),
        forall|v: int| 0 <= v < cb.len() ==> #[trigger] ca[v] == relaxed_value(
            sb.nodes@[v].kind, sb.parents(v as usize), cb, v),
        forall|v: int| 0 <= v < cb.len() ==> relaxed_node(
            sb.nodes@[v], #[trigger] sa.nodes@[v], sb.parents(v as usize), cb),
        sb.values@.len() == cb.len(),
        sa.values@.len() == cb.len(),
        forall|u: int| 0 <= u < cb.len() && (#[trigger] cb[u]) is None ==> sb.values@[u] == s0.values@[u],
        forall|v: int| 0 <= v < cb.len() ==> #[trigger] sa.values@[v] == if stores_in_pass(
            sb.nodes@[v].kind, sb.parents(v as usize), cb, v) {
            ca[v]
        } else {
            sb.values@[v]
        },
    ensures
        forall|u: int| 0 <= u < cb.len() && (#[trigger] ca[u]) is None ==> sa.values@[u] == s0.values@[u],
        ca == relax_iter(s0, seed_values(s0), passes + 1),
        forall|u: int| 0 <= u < cb.len() ==> #[trigger] node_state_ok(
            s0.nodes@[u], sa.nodes@[u], s0.parents(u as usize), ca[u]),
        forall|u: int| 0 <= u < cb.len() && (#[trigger] s0.nodes@[u]).kind is Sram ==>
            sa.nodes@[u].kind->Sram_0.memory@ == memory_after(s0, u, passes + 1),
{
    assert forall|u: int| 0 <= u < cb.len() implies #[trigger] node_state_ok(
        s0.nodes@[u], sa.nodes@[u], s0.parents(u as usize), ca[u]) by {
        assert(node_state_ok(s0.nodes@[u], sb.nodes@[u], s0.parents(u as usize), cb[u]));
        lemma_state_after_relax(s0.nodes@[u], sb.nodes@[u], sa.nodes@[u], s0.parents(u as usize), cb, u, ca[u]);
    }
    assert(ca =~= relax_all(sb, cb));
    assert forall|u: int| 0 <= u < cb.len() implies {
        &&& (#[trigger] s0.nodes@[u]).kind is Sram ==> sb.nodes@[u].kind is Sram
        &&& !(s0.nodes@[u].kind is Sram) ==> sb.nodes@[u] == s0.nodes@[u]
    } by {
        assert(node_state_ok(s0.nodes@[u], sb.nodes@[u], s0.parents(u as usize), cb[u]));
    }
    lemma_relax_all_same(s0, sb, cb);
    assert forall|u: int| 0 <= u < cb.len() && (#[trigger] ca[u]) is None implies sa.values@[u] == s0.values@[u] by {
        let ps = sb.parents(u as usize);
        assert(ca[u] == relaxed_value(sb.nodes@[u].kind, ps, cb, u));
        if stores_in_pass(sb.nodes@[u].kind, ps, cb, u) && ps.len() > 0 {
            assert(cb[ps[0] as int] is Some);
        }
    }
    assert forall|u: int| 0 <= u < cb.len() && (#[trigger] s0.nodes@[u]).kind is Sram implies
        sa.nodes@[u].kind->Sram_0.memory@ == memory_after(s0, u, passes + 1) by {
        assert(node_state_ok(s0.nodes@[u], sb.nodes@[u], s0.parents(u as usize), cb[u]));
        assert(relaxed_node(sb.nodes@[u], sa.nodes@[u], s0.parents(u as usize), cb));
    }
}

/// A relaxation pass keeps what `node_state_ok` says of an element.
pub proof fn lemma_state_after_relax(
    o: RtlNode,
    nb: RtlNode,
    na: RtlNode,
    ps: Seq<usize>,
    cur: Seq<Option<Value>>,
    v: int,
    ca: Option<Value>,
)
    requires
        0 <= v < cur.len(),
        node_state_ok(o, nb, ps, cur[v]),
        ca == relaxed_value(nb.kind, ps, cur, v),
        relaxed_node(nb, na, ps, cur),
    ensures
        node_state_ok(o, na, ps, ca),
{
    if o.kind is Sram {
        if writes_in_pass(nb.kind, ps, cur) {
            assert(sram_advanced(o, na));
        }
    }
}

/// Whether every element of `ps` has a wavefront.
pub fn parents_levelled(levels: &Vec<Option<usize>>, ps: &Vec<usize>) -> (r: bool)
    ensures
        r == all_levelled(levels@, ps@),
{
    let mut j: usize = 0;
    while j < ps.len()
        invariant
            j <= ps@.len(),
            forall|i: int| 0 <= i < j ==> #[trigger] levelled(levels@, ps@[i]),
        decreases ps@.len() - j,
    {
        let p = ps[j];
        if p >= levels.len() || levels[p].is_none() {
            assert(!levelled(levels@, ps@[j as int]));
            return false;
        }
        j = j + 1;
    }
    true
}

/// The wavefronts after wavefront `lvl` has been drained: every element
/// that is ready joins wavefront `lvl + 1`. Also says whether any joined.
pub(crate) fn next_levels(
    types: &Vec<NodeType>,
    pars: &Vec<Vec<usize>>,
    levels: &Vec<Option<usize>>,
    lvl: usize,
    edges: Ghost<Seq<(usize, usize)>>,
) -> (r: (Vec<Option<usize>>, bool))
    requires
        types@.len() == levels@.len(),
        pars@.len() == levels@.len(),
        forall|v: int| 0 <= v < pars@.len() ==> (#[trigger] pars@[v])@ == parents_spec(edges@, v as usize),
        lvl + count_none(levels@) <= levels@.len(),
    ensures
        r.0@.len() == levels@.len(),
        forall|v: int| 0 <= v < levels@.len() ==> #[trigger] r.0@[v] == if ready(types@, edges@, levels@, v) {
            Some((lvl + 1) as usize)
        } else {
            levels@[v]
        },
        r.1 == exists|v: int| 0 <= v < levels@.len() && #[trigger] ready(types@, edges@, levels@, v),
{
    let n = levels.len();
    let mut out: Vec<Option<usize>> = Vec::new();
    let mut changed = false;
    let mut v: usize = 0;
    while v < n
        invariant
            n == levels@.len(),
            types@.len() == n,
            pars@.len() == n,
            forall|u: int| 0 <= u < pars@.len() ==> (#[trigger] pars@[u])@ == parents_spec(edges@, u as usize),
            lvl + count_none(levels@) <= n,
            v <= n,
            out@.len() == v,
            forall|u: int| 0 <= u < v ==> #[trigger] out@[u] == if ready(types@, edges@, levels@, u) {
                Some((lvl + 1) as usize)
            } else {
                levels@[u]
            },
            changed == exists|u: int| 0 <= u < v && #[trigger] ready(types@, edges@, levels@, u),
        decreases n - v,
    {
        let ps = &pars[v];
        assert(ps@ == parents_spec(edges@, v));
        let t = types[v];
        let is_ready = t != NodeType::Input && t != NodeType::Reg && t != NodeType::Sram
            && levels[v].is_none() && ps.len() > 0 && parents_levelled(levels, ps);
        assert(is_ready == ready(types@, edges@, levels@, v as int));
        if is_ready {
            proof {
                lemma_count_none_pos(levels@, v as int);
            }
            out.push(Some(lvl + 1));
            changed = true;
        } else {
            out.push(levels[v]);
        }
        assert(out@[v as int] == if ready(types@, edges@, levels@, v as int) {
            Some((lvl + 1) as usize)
        } else {
            levels@[v as int]
        });
        v = v + 1;
    }
    (out, changed)
}

impl RtlSimulator {
    /// The parents of every element.
    pub fn all_parents(&self) -> (r: Vec<Vec<usize>>)
        requires
            self.wf(),
        ensures
            parents_table(*self, r@),
    {
        let n = self.nodes.len();
        let mut r: Vec<Vec<usize>> = Vec::new();
        let mut v: usize = 0;
        while v < n
            invariant
                self.wf(),
                n == self.nodes@.len(),
                v <= n,
                r@.len() == v,
                forall|u: int| 0 <= u < v ==> (#[trigger] r@[u])@ == self.parents(u as usize),
            decreases n - v,
        {
            r.push(parents_of(&self.graph, v));
            v = v + 1;
        }
        r
    }

    /// The kind of every element.
    pub fn node_type_table(&self) -> (r: Vec<NodeType>)
        ensures
            r@ == node_types(self.nodes@),
    {
        let n = self.nodes.len();
        let mut r: Vec<NodeType> = Vec::new();
        let mut v: usize = 0;
        while v < n
            invariant
                n == self.nodes@.len(),
                v <= n,
                r@ == node_types(self.nodes@).take(v as int),
            decreases n - v,
        {
            r.push(self.nodes[v].node_type());
            v = v + 1;
            assert(r@ =~= node_types(self.nodes@).take(v as int));
        }
        assert(r@ =~= node_types(self.nodes@));
        r
    }

    /// Gives every anchor its wavefront-0 value (performing the memory
    /// arrays' reads) and returns the cycle's starting values.
    pub fn seed_anchors(&mut self, pars: &Vec<Vec<usize>>) -> (cur: Vec<Option<Value>>)
        requires
            old(self).wf(),
            parents_table(*old(self), pars@),
        ensures
            final(self).wf(),
            final(self).graph == old(self).graph,
            final(self).values == old(self).values,
            final(self).nodes@.len() == old(self).nodes@.len(),
            cur@.len() == old(self).nodes@.len(),
            forall|v: int| 0 <= v < cur@.len() ==> #[trigger] cur@[v] == seed_value(
                old(self).nodes@, old(self).parents(v as usize), old(self).nodes@[v].kind),
            forall|v: int| 0 <= v < cur@.len() ==> seeded_node(old(self).nodes@[v], #[trigger] final(self).nodes@[v]),
    {
        let n = self.nodes.len();
        let mut cur: Vec<Option<Value>> = Vec::new();
        let mut v: usize = 0;
        while v < n
            invariant
                n == self.nodes@.len(),
                n == old(self).nodes@.len(),
                parents_table(*old(self), pars@),
                self.graph == old(self).graph,
                self.values == old(self).values,
                old(self).wf(),
                v <= n,
                cur@.len() == v,
                forall|u: int| 0 <= u < v ==> #[trigger] cur@[u] == seed_value(
                    old(self).nodes@, old(self).parents(u as usize), old(self).nodes@[u].kind),
                forall|u: int| 0 <= u < v ==> seeded_node(old(self).nodes@[u], #[trigger] self.nodes@[u]),
                forall|u: int| v <= u < n ==> #[trigger] self.nodes@[u] == old(self).nodes@[u],
            decreases n - v,
        {
            let ps = &pars[v];
            proof {
                lemma_parents_in_graph(graph_edges(old(self).graph), v, n as nat);
            }
            let t = self.nodes[v].node_type();
            let sv: Option<Value> = if t == NodeType::Sram {
                match &mut self.nodes[v].kind {
                    NodeKind::Sram(s) => Some(s.read_port()),
                    _ => None,
                }
            } else {
                match &self.nodes[v].kind {
                    NodeKind::Input(x) => Some(*x),
                    NodeKind::Reg(init) => {
                        if ps.len() > 0 {
                            let p = ps[0];
                            assert(p < n);
                            assert((self.nodes@[p as int].kind is Input || old(self).nodes@[p as int].kind is Input)
                                ==> self.nodes@[p as int] == old(self).nodes@[p as int]) by {
                                if p < v {
                                    assert(seeded_node(old(self).nodes@[p as int], self.nodes@[p as int]));
                                }
                            }
                            match &self.nodes[p].kind {
                                NodeKind::Input(x) => Some(*x),
                                _ => Some(*init),
                            }
                        } else {
                            Some(*init)
                        }
                    },
                    _ => None,
                }
            };
            cur.push(sv);
            v = v + 1;
        }
        proof {
            let m = self.nodes@;
            assert forall|a: int, b: int| 0 <= a < b < m.len() implies
                #[trigger] m[a].name@ != #[trigger] m[b].name@ by {
                assert(m[a].name == old(self).nodes@[a].name);
                assert(m[b].name == old(self).nodes@[b].name);
            }
        }
        cur
    }

    /// Runs one clock cycle. Wavefront 0 holds the inputs, registers and
    /// memory arrays; after each wavefront a relaxation pass evaluates
    /// what has become evaluable; an element joins the next wavefront once
    /// all its parents have one. At the end the cycle's values are
    /// committed. Returns each element's wavefront (`None` for an element
    /// that none reached).
    pub fn topological_sort_with_levels(&mut self) -> (levels: Vec<Option<usize>>)
        requires
            old(self).wf(),
        ensures
            cycle_result(*old(self), *final(self), levels@),
    {
        let ghost s0 = *self;
        let ghost es = self.edges();
        let n = self.nodes.len();
        let pars = self.all_parents();
        let types = self.node_type_table();
        let mut levels: Vec<Option<usize>> = Vec::new();
        let mut any_anchor = false;
        let mut v: usize = 0;
        while v < n
            invariant
                n == types@.len(),
                types@ == node_types(s0.nodes@),
                v <= n,
                levels@.len() == v,
                forall|u: int| 0 <= u < v ==> #[trigger] levels@[u] == if is_anchor(types@[u]) {
                    Some(0usize)
                } else {
                    None
                },
                any_anchor == exists|u: int| 0 <= u < v && #[trigger] is_anchor(types@[u]),
            decreases n - v,
        {
            let t = types[v];
            if t == NodeType::Input || t == NodeType::Reg || t == NodeType::Sram {
                levels.push(Some(0));
                any_anchor = true;
            } else {
                levels.push(None);
            }
            assert(is_anchor(types@[v as int]) == (t == NodeType::Input || t == NodeType::Reg || t == NodeType::Sram));
            v = v + 1;
        }
        let mut cur = self.seed_anchors(&pars);
        let ghost mut passes: nat = 0;
        proof {
            assert(cur@ =~= seed_values(s0));
            assert(cur@ == relax_iter(s0, seed_values(s0), 0));
            assert forall|u: int| 0 <= u < n && (#[trigger] s0.nodes@[u]).kind is Sram implies
                self.nodes@[u].kind->Sram_0.memory@ == memory_after(s0, u, 0) by {
                assert(seeded_node(s0.nodes@[u], self.nodes@[u]));
            }
            assert forall|u: int| 0 <= u < n implies #[trigger] node_state_ok(
                s0.nodes@[u], self.nodes@[u], s0.parents(u as usize), cur@[u]) by {
                assert(seeded_node(s0.nodes@[u], self.nodes@[u]));
            }
            lemma_count_none_mono(levels@, levels@);
            assert forall|u: int| 0 <= u < n implies #[trigger] node_level_sound(types@, es, levels@, u) by {}
            assert forall|u: int| 0 <= u < n && !is_anchor(types@[u]) && levels@[u] is None
                && parents_spec(es, u as usize).len() > 0 implies #[trigger] waits_on(es, levels@, u, 0) by {
                let ps = parents_spec(es, u as usize);
                lemma_parents_in_graph(es, u as usize, n as nat);
                assert(!levelled(levels@, ps[0]) || levels@[ps[0] as int] == Some(0usize));
            }
        }
        if any_anchor {
            let ghost cb = cur@;
            let ghost sb = *self;
            self.record_out(&mut cur, &pars);
            proof {
                lemma_after_pass(s0, sb, *self, cb, cur@, passes);
                passes = passes + 1;
            }
        }
        proof {
            if any_anchor {
                let u = choose|u: int| 0 <= u < n && #[trigger] is_anchor(types@[u]);
                assert(levels@[u] == Some(0usize));
            } else {
                assert forall|u: int| 0 <= u < n implies #[trigger] levels@[u] is None by {
                    assert(!is_anchor(types@[u]));
                }
            }
            lemma_wavefront_count(levels@, 0);
            if any_anchor {
                let u = choose|u: int| 0 <= u < n && #[trigger] is_anchor(types@[u]);
                lemma_count_none_lt(levels@, u);
            }
        }
        let mut lvl: usize = 0;
        loop
            invariant
                self.wf(),
                self.graph == s0.graph,
                self.values@.len() == n,
                forall|u: int| 0 <= u < n && (#[trigger] cur@[u]) is None ==> self.values@[u] == s0.values@[u],
                self.nodes@.len() == n,
                s0.wf(),
                n == s0.nodes@.len(),
                es == s0.edges(),
                types@ == node_types(s0.nodes@),
                parents_table(s0, pars@),
                cur@.len() == n,
                levels@.len() == n,
                forall|u: int| 0 <= u < n ==> #[trigger] node_state_ok(
                    s0.nodes@[u], self.nodes@[u], s0.parents(u as usize), cur@[u]),
                levels_sound(types@, es, levels@),
                levels_bounded(levels@, lvl),
                frontier_waits(types@, es, levels@, lvl),
                lvl + count_none(levels@) <= n,
                any_anchor ==> lvl + count_none(levels@) + 1 <= n,
                cur@ == relax_iter(s0, seed_values(s0), passes),
                passes == wavefront_count(levels@),
                forall|u: int| 0 <= u < n && (#[trigger] s0.nodes@[u]).kind is Sram ==>
                    self.nodes@[u].kind->Sram_0.memory@ == memory_after(s0, u, passes),
                any_anchor ==> exists|u: int| 0 <= u < n && #[trigger] levels@[u] == Some(lvl),
                !any_anchor ==> forall|u: int| 0 <= u < n ==> #[trigger] levels@[u] is None,
            ensures
                any_anchor ==> lvl + count_none(levels@) + 1 <= n,
                levels_bounded(levels@, lvl),
                !any_anchor ==> forall|u: int| 0 <= u < n ==> #[trigger] levels@[u] is None,
                cur@ == relax_iter(s0, seed_values(s0), passes),
                passes == wavefront_count(levels@),
                forall|u: int| 0 <= u < n && (#[trigger] s0.nodes@[u]).kind is Sram ==>
                    self.nodes@[u].kind->Sram_0.memory@ == memory_after(s0, u, passes),

                levels_complete(types@, es, levels@),
                levels_sound(types@, es, levels@),
                levels@.len() == n,
                cur@.len() == n,
                self.wf(),
                self.graph == s0.graph,
                self.values@.len() == n,
                forall|u: int| 0 <= u < n && (#[trigger] cur@[u]) is None ==> self.values@[u] == s0.values@[u],
                self.nodes@.len() == n,
                forall|u: int| 0 <= u < n ==> #[trigger] node_state_ok(
                    s0.nodes@[u], self.nodes@[u], s0.parents(u as usize), cur@[u]),
            decreases count_none(levels@),
        {
            let (nl, changed) = next_levels(&types, &pars, &levels, lvl, Ghost(es));
            if !changed {
                break;
            }
            proof {
                let w = choose|v: int| 0 <= v < levels@.len() && #[trigger] ready(types@, es, levels@, v);
                lemma_count_none_pos(levels@, w);
                lemma_next_wavefront(types@, es, levels@, nl@, lvl);
                if !any_anchor {
                    let ps = parents_spec(es, w as usize);
                    assert(levelled(levels@, ps[0]));
                }
                lemma_wavefront_count(levels@, lvl);
                assert(nl@[w] == Some((lvl + 1) as usize));
                lemma_wavefront_count(nl@, (lvl + 1) as usize);
            }
            levels = nl;
            lvl = lvl + 1;
            let ghost cb = cur@;
            let ghost sb = *self;
            self.record_out(&mut cur, &pars);
            proof {
                lemma_after_pass(s0, sb, *self, cb, cur@, passes);
                passes = passes + 1;
            }
        }
        proof {
            lemma_wavefront_count(levels@, lvl);
        }
        let mut w: usize = 0;
        let ghost sb = *self;
        while w < n
            invariant
                w <= n,
                self.graph == sb.graph,
                self.nodes == sb.nodes,
                sb.wf(),
                sb.graph == s0.graph,
                self.values@.len() == sb.values@.len(),
                forall|u: int| 0 <= u < n && (#[trigger] cur@[u]) is None ==> sb.values@[u] == s0.values@[u],
                n == s0.nodes@.len(),
                forall|u: int| 0 <= u < n ==> #[trigger] node_state_ok(
                    s0.nodes@[u], sb.nodes@[u], s0.parents(u as usize), cur@[u]),
                forall|u: int| 0 <= u < n && (#[trigger] s0.nodes@[u]).kind is Sram ==>
                    sb.nodes@[u].kind->Sram_0.memory@ == memory_after(s0, u, passes),
                cur@.len() == n,
                self.values@.len() == n,
                forall|u: int| 0 <= u < w ==> #[trigger] self.values@[u] == if cur@[u] is Some { cur@[u] } else { s0.values@[u] },
                forall|u: int| w <= u < n ==> #[trigger] self.values@[u] == sb.values@[u],
            decreases n - w,
        {
            if cur[w].is_some() {
                self.values.set(w, cur[w]);
            }
            w = w + 1;
        }
        proof {
            assert(self.values@ =~= commit(s0.values@, cur@));
            assert forall|u: int| 0 <= u < n implies {
                let o = #[trigger] s0.nodes@[u];
                let nn = self.nodes@[u];
                let c = self.values@[u];
                match o.kind {
                    NodeKind::Input(x) => nn == o && c == Some(x),
                    NodeKind::Reg(init) => nn == o && (s0.parents(u as usize).len() == 0 ==> c == Some(init)),
                    NodeKind::Sram(s) => {
                        &&& sram_advanced(o, nn)
                        &&& c == Some(sram_read_value(s))
                        &&& nn.kind->Sram_0.memory@ == memory_after(s0, u, wavefront_count(levels@))
                    },
                    _ => nn == o,
                }
            } by {
                assert(node_state_ok(s0.nodes@[u], sb.nodes@[u], s0.parents(u as usize), cur@[u]));
                assert(self.nodes@[u] == sb.nodes@[u]);
            }
            let m = self.nodes@;
            assert forall|a: int, b: int| 0 <= a < b < m.len() implies
                #[trigger] m[a].name@ != #[trigger] m[b].name@ by {
                assert(m[a] == sb.nodes@[a]);
                assert(m[b] == sb.nodes@[b]);
            }
        }
        levels
    }
}

} // verus!
