//! Properties of the engine that span several steps or functions.
use vstd::prelude::*;
use crate::value::{Value, OpType, comb_spec, and_spec, or_spec};
use crate::node::{
    NodeKind, NodeType, SramState, sram_read_value, sram_next_buffer, advance_reads, mem_read, is_anchor,
};
use crate::relax::{all_present, relaxed_value, parent_vals};
use crate::levels::{
    levels_sound, levels_complete, node_level_sound, levelled, ready, all_levelled, node_types,
    wavefront_count,
};
use crate::simulator::RtlSimulator;
use crate::cycle::{cycle_result, cycle_values, relax_iter, relax_all, seed_values};
use crate::topology::parents_spec;

verus! {

/// The gates follow their truth tables on defined operands, an unknown
/// operand dominates AND but is passed over by OR, and a gate with the
/// wrong number of operands gives unknown.
pub proof fn lemma_gate_tables(a: u8, b: u8)
    ensures
        comb_spec(OpType::And, seq![Value::Bit(a), Value::Bit(b)]) == Value::Bit(a & b),
        comb_spec(OpType::Or, seq![Value::Bit(a), Value::Bit(b)]) == Value::Bit(a | b),
        comb_spec(OpType::Not, seq![Value::Bit(a)]) == Value::Bit(if a == 1 { 0u8 } else { 1u8 }),
        comb_spec(OpType::Not, seq![Value::Bit(a), Value::Bit(b)]) == Value::X,
        comb_spec(OpType::And, seq![Value::Bit(a)]) == Value::X,
        comb_spec(OpType::Or, seq![Value::Bit(a), Value::Bit(b), Value::Bit(b)]) == Value::X,
        and_spec(Value::X, Value::Bit(b)) == Value::X,
        and_spec(Value::Bit(a), Value::X) == Value::X,
        or_spec(Value::X, Value::Bit(b)) == Value::Bit(b),
        or_spec(Value::Bit(a), Value::X) == Value::Bit(a),
{
}

/// A relaxation pass gives a register without a parent its initial value,
/// and a register whose parents all have values its first parent's value.
pub proof fn lemma_register_follows_parent(k: NodeKind, ps: Seq<usize>, cur: Seq<Option<Value>>, v: int)
    requires
        k is Reg,
        0 <= v < cur.len(),
        all_present(cur, ps),
    ensures
        ps.len() == 0 ==> relaxed_value(k, ps, cur, v) == Some(k->Reg_0),
        ps.len() > 0 ==> relaxed_value(k, ps, cur, v) == cur[ps[0] as int],
{
}

/// A gate whose parents all have values gets the value its operator
/// computes from them, in parent order.
pub proof fn lemma_gate_evaluates(op: OpType, ps: Seq<usize>, cur: Seq<Option<Value>>, v: int)
    requires
        0 <= v < cur.len(),
        cur[v] is None,
        all_present(cur, ps),
    ensures
        relaxed_value(NodeKind::Comb(op), ps, cur, v) == Some(comb_spec(op, parent_vals(cur, ps))),
{
}

/// With no read latency, a memory array reads the cell at its read address
/// in the same cycle.
pub proof fn lemma_zero_latency_read(s: SramState, a: usize)
    requires
        s.read_latency == 0,
        s.read_addr == Some(a),
        a < s.memory@.len(),
    ensures
        sram_read_value(s) == s.memory@[a as int],
{
}

/// The pending read addresses after `t` cycles, when the read address of
/// cycle `i` is `addrs[i]`.
pub open spec fn reads_after(latency: usize, buf: Seq<Option<usize>>, addrs: Seq<Option<usize>>, t: nat) -> Seq<Option<usize>>
    decreases t,
{
    if t == 0 {
        buf
    } else {
        advance_reads(latency, reads_after(latency, buf, addrs, (t - 1) as nat), addrs[t - 1])
    }
}

/// With read latency `L > 0` and `L` pending entries, the address read in
/// cycle `t` is the one issued in cycle `t - L`; before cycle `L` it is an
/// entry that was pending at the start.
pub proof fn lemma_read_latency(latency: usize, buf: Seq<Option<usize>>, addrs: Seq<Option<usize>>, t: nat)
    requires
        latency > 0,
        buf.len() == latency,
        t <= addrs.len(),
    ensures
        reads_after(latency, buf, addrs, t) == (buf + addrs.take(t as int)).skip(t as int),
        t >= latency ==> reads_after(latency, buf, addrs, t)[0] == addrs[t - latency],
        t < latency ==> reads_after(latency, buf, addrs, t)[0] == buf[t as int],
    decreases t,
{
    if t > 0 {
        lemma_read_latency(latency, buf, addrs, (t - 1) as nat);
        let prev = reads_after(latency, buf, addrs, (t - 1) as nat);
        assert(prev.len() == latency);
        assert((buf + addrs.take(t as int)).skip(t as int) =~= prev.drop_first().push(addrs[t - 1]));
    } else {
        assert((buf + addrs.take(0)).skip(0) =~= buf);
    }
    let r = reads_after(latency, buf, addrs, t);
    assert(r[0] == (buf + addrs.take(t as int))[t as int]);
}

/// The state of memory array `m` of circuit `s`.
pub open spec fn sram_of(s: RtlSimulator, m: int) -> SramState {
    s.nodes@[m].kind->Sram_0
}

/// `st` is the states of a circuit at the start of successive cycles, in
/// which memory array `m` advances its pending reads from one cycle to the
/// next and keeps its latency (the read address may be changed between
/// cycles), as each cycle's contract states.
pub open spec fn sram_history(st: Seq<RtlSimulator>, m: int) -> bool {
    &&& forall|k: int| 0 <= k < st.len() ==> 0 <= m < (#[trigger] st[k]).nodes@.len() && st[k].nodes@[m].kind is Sram
    &&& forall|k: int| 0 <= k < st.len() - 1 ==> {
        &&& #[trigger] sram_of(st[k + 1], m).read_latency == sram_of(st[k], m).read_latency
        &&& sram_of(st[k + 1], m).rdaddr_buffer@ == sram_next_buffer(sram_of(st[k], m))
    }
}

/// The read address of memory array `m` in each cycle of `st`.
pub open spec fn read_addrs(st: Seq<RtlSimulator>, m: int) -> Seq<Option<usize>> {
    Seq::new(st.len(), |k: int| sram_of(st[k], m).read_addr)
}

/// Along such a history, the pending reads at the start of cycle `k` are
/// those of the first cycle advanced by the read addresses of the cycles
/// in between.
pub proof fn lemma_sram_history(st: Seq<RtlSimulator>, m: int, k: nat)
    requires
        sram_history(st, m),
        k < st.len(),
    ensures
        sram_of(st[k as int], m).read_latency == sram_of(st[0], m).read_latency,
        sram_of(st[k as int], m).rdaddr_buffer@ == reads_after(
            sram_of(st[0], m).read_latency, sram_of(st[0], m).rdaddr_buffer@, read_addrs(st, m), k),
    decreases k,
{
    if k > 0 {
        lemma_sram_history(st, m, (k - 1) as nat);
        let j: int = k - 1;
        assert(sram_of(st[j + 1], m).read_latency == sram_of(st[j], m).read_latency);
        assert(sram_of(st[j + 1], m).rdaddr_buffer@ == sram_next_buffer(sram_of(st[j], m)));
        assert(read_addrs(st, m)[j] == sram_of(st[j], m).read_addr);
        assert(st[j + 1] == st[k as int]);
    }
}

/// A read address issued in cycle `t - L` of a memory array with read
/// latency `L > 0` is the one read in cycle `t`; in the first `L` cycles
/// the entries pending at the start are read (none, for a new array).
pub proof fn lemma_read_surfaces_after_latency(st: Seq<RtlSimulator>, m: int, t: nat)
    requires
        sram_history(st, m),
        t < st.len(),
        sram_of(st[0], m).read_latency > 0,
        sram_of(st[0], m).rdaddr_buffer@.len() == sram_of(st[0], m).read_latency,
    ensures
        ({
            let l = sram_of(st[0], m).read_latency;
            let s = sram_of(st[t as int], m);
            &&& t >= l ==> sram_read_value(s) == mem_read(s.memory@, read_addrs(st, m)[t - l])
            &&& t < l ==> sram_read_value(s) == mem_read(s.memory@, sram_of(st[0], m).rdaddr_buffer@[t as int])
        }),
{
    let s0 = sram_of(st[0], m);
    lemma_sram_history(st, m, t);
    lemma_read_latency(s0.read_latency, s0.rdaddr_buffer@, read_addrs(st, m), t);
}

/// An edge shows up among its target's parents.
pub proof fn lemma_edge_is_parent(edges: Seq<(usize, usize)>, k: int)
    requires
        0 <= k < edges.len(),
    ensures
        exists|j: int| 0 <= j < parents_spec(edges, edges[k].1).len()
            && #[trigger] parents_spec(edges, edges[k].1)[j] == edges[k].0,
    decreases edges.len(),
{
    let b = edges[k].1;
    let rest = parents_spec(edges.drop_last(), b);
    if k == edges.len() - 1 {
        assert(parents_spec(edges, b)[rest.len() as int] == edges[k].0);
    } else {
        assert(edges.drop_last()[k] == edges[k]);
        lemma_edge_is_parent(edges.drop_last(), k);
        let j = choose|j: int| 0 <= j < rest.len() && #[trigger] rest[j] == edges[k].0;
        assert(parents_spec(edges, b)[j] == rest[j]);
    }
}

/// Wavefronts increase along every edge into an element that is not an
/// anchor (an input, register or memory array, which sit at wavefront 0
/// whatever their parents' wavefronts).
pub proof fn lemma_wavefront_monotone(
    types: Seq<NodeType>,
    edges: Seq<(usize, usize)>,
    levels: Seq<Option<usize>>,
    k: int,
)
    requires
        levels_sound(types, edges, levels),
        0 <= k < edges.len(),
        edges[k].1 < levels.len(),
        !is_anchor(types[edges[k].1 as int]),
        levels[edges[k].1 as int] is Some,
    ensures
        levelled(levels, edges[k].0),
        levels[edges[k].0 as int]->Some_0 < levels[edges[k].1 as int]->Some_0,
{
    let (a, b) = edges[k];
    lemma_edge_is_parent(edges, k);
    assert(node_level_sound(types, edges, levels, b as int));
    let ps = parents_spec(edges, b);
    let j = choose|j: int| 0 <= j < ps.len() && #[trigger] ps[j] == a;
    assert(levelled(levels, ps[j]));
}

/// Two justified and complete wavefront assignments agree on every element
/// that the first puts in a wavefront of at most `k`.
pub proof fn lemma_levels_agree_upto(
    types: Seq<NodeType>,
    edges: Seq<(usize, usize)>,
    l1: Seq<Option<usize>>,
    l2: Seq<Option<usize>>,
    k: nat,
)
    requires
        levels_sound(types, edges, l1),
        levels_complete(types, edges, l1),
        levels_sound(types, edges, l2),
        levels_complete(types, edges, l2),
    ensures
        forall|v: int| 0 <= v < l1.len() && (#[trigger] l1[v]) is Some && l1[v]->Some_0 <= k ==> l2[v] == l1[v],
    decreases k,
{
    if k > 0 {
        lemma_levels_agree_upto(types, edges, l1, l2, (k - 1) as nat);
    }
    assert forall|v: int| 0 <= v < l1.len() && (#[trigger] l1[v]) is Some && l1[v]->Some_0 <= k implies l2[v] == l1[v] by {
        assert(node_level_sound(types, edges, l1, v));
        assert(node_level_sound(types, edges, l2, v));
        let kv = l1[v]->Some_0;
        if kv == k && !is_anchor(types[v]) {
            let ps = parents_spec(edges, v as usize);
            assert forall|j: int| 0 <= j < ps.len() implies #[trigger] levelled(l2, ps[j])
                && l2[ps[j] as int] == l1[ps[j] as int] by {
                assert(levelled(l1, ps[j]));
            }
            assert(all_levelled(l2, ps));
            assert(!ready(types, edges, l2, v));
            let k2 = l2[v]->Some_0;
            let j1 = choose|j: int| 0 <= j < ps.len() && #[trigger] l1[ps[j] as int] == Some((kv - 1) as usize);
            assert(levelled(l2, ps[j1]));
            let j2 = choose|j: int| 0 <= j < ps.len() && #[trigger] l2[ps[j] as int] == Some((k2 - 1) as usize);
            assert(levelled(l1, ps[j2]));
            assert(levelled(l2, ps[j2]));
        }
    }
}

/// Two justified and complete wavefront assignments are the same.
pub proof fn lemma_levels_unique(
    types: Seq<NodeType>,
    edges: Seq<(usize, usize)>,
    l1: Seq<Option<usize>>,
    l2: Seq<Option<usize>>,
)
    requires
        levels_sound(types, edges, l1),
        levels_complete(types, edges, l1),
        levels_sound(types, edges, l2),
        levels_complete(types, edges, l2),
    ensures
        l1 == l2,
{
    assert forall|v: int| 0 <= v < l1.len() implies #[trigger] l1[v] == l2[v] by {
        if l1[v] is Some {
            lemma_levels_agree_upto(types, edges, l1, l2, l1[v]->Some_0 as nat);
        } else if l2[v] is Some {
            lemma_levels_agree_upto(types, edges, l2, l1, l2[v]->Some_0 as nat);
        }
    }
    assert(l1 =~= l2);
}

/// Relaxation reads only a circuit's elements and topology.
pub proof fn lemma_relax_iter_same(a: RtlSimulator, b: RtlSimulator, cur: Seq<Option<Value>>, p: nat)
    requires
        a.nodes@ == b.nodes@,
        a.graph == b.graph,
    ensures
        relax_iter(a, cur, p) == relax_iter(b, cur, p),
    decreases p,
{
    if p > 0 {
        lemma_relax_iter_same(a, b, cur, (p - 1) as nat);
        let c = relax_iter(a, cur, (p - 1) as nat);
        assert(relax_all(a, c) =~= relax_all(b, c));
    }
}

/// Running a second cycle of a circuit without memory arrays, with the
/// inputs unchanged, commits the same values as the first.
pub proof fn lemma_cycle_idempotent(
    s0: RtlSimulator,
    s1: RtlSimulator,
    l1: Seq<Option<usize>>,
    s2: RtlSimulator,
    l2: Seq<Option<usize>>,
)
    requires
        s0.wf(),
        forall|v: int| 0 <= v < s0.nodes@.len() ==> !((#[trigger] s0.nodes@[v]).kind is Sram),
        cycle_result(s0, s1, l1),
        cycle_result(s1, s2, l2),
    ensures
        s2.values@ == s1.values@,
{
    assert forall|v: int| 0 <= v < s0.nodes@.len() implies #[trigger] s1.nodes@[v] == s0.nodes@[v] by {
        assert(!(s0.nodes@[v].kind is Sram));
    }
    assert(s1.nodes@ =~= s0.nodes@);
    lemma_levels_unique(node_types(s0.nodes@), s0.edges(), l1, l2);
    assert(seed_values(s1) =~= seed_values(s0));
    let p = wavefront_count(l1);
    lemma_relax_iter_same(s1, s0, seed_values(s0), p);
    assert(cycle_values(s1, p) == cycle_values(s0, p));
    assert(s2.values@ =~= s1.values@);
}

} // verus!
