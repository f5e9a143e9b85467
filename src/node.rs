//! Circuit elements: their kinds and the state that each kind carries.
use vstd::prelude::*;
use crate::value::{Value, OpType};

verus! {

/// The kind of a circuit element, without its payload.
#[derive(Debug, Clone, Copy, PartialEq, Eq, Structural)]
pub enum NodeType {
    Comb,
    Reg,
    Input,
    Output,
    Sram,
}

/// The state of a memory array: its cells, its read latency, the pending
/// read addresses (oldest first), and the configured read and write
/// addresses.
#[derive(Debug, Clone)]
pub struct SramState {
    pub memory: Vec<Value>,
    pub read_latency: usize,
    pub rdaddr_buffer: Vec<Option<usize>>,
    pub read_addr: Option<usize>,
    pub write_addr: Option<usize>,
}

/// A circuit element's kind together with the payload of that kind.
#[derive(Debug, Clone)]
pub enum NodeKind {
    /// A primary input, driven with a value that is constant for the cycle.
    Input(Value),
    /// A register, with the value it holds when nothing drives it.
    Reg(Value),
    /// A primary output, which shows its single parent.
    Output,
    /// A gate.
    Comb(OpType),
    /// A memory array.
    Sram(SramState),
}

/// A named circuit element.
#[derive(Debug, Clone)]
pub struct RtlNode {
    pub name: String,
    pub kind: NodeKind,
}

/// The memory cell at an address, or unknown for no address or one out of range.
pub open spec fn mem_read(mem: Seq<Value>, a: Option<usize>) -> Value {
    match a {
        Some(i) => if i < mem.len() { mem[i as int] } else { Value::X },
        None => Value::X,
    }
}

/// Memory after a write of `v` at `a`; a write with no address or one out
/// of range changes nothing.
pub open spec fn mem_write(mem: Seq<Value>, a: Option<usize>, v: Value) -> Seq<Value> {
    match a {
        Some(i) => if i < mem.len() { mem.update(i as int, v) } else { mem },
        None => mem,
    }
}

/// The value that a memory array's read port gives in a cycle: the cell at
/// the read address with no latency; otherwise the cell at the oldest
/// pending address (unknown when there is no pending entry).
pub open spec fn sram_read_value(s: SramState) -> Value {
    if s.read_latency == 0 {
        mem_read(s.memory@, s.read_addr)
    } else if s.rdaddr_buffer@.len() == 0 {
        Value::X
    } else {
        mem_read(s.memory@, s.rdaddr_buffer@[0])
    }
}

/// The pending read addresses after a cycle's read: with latency, the
/// oldest leaves and the current read address joins at the back.
pub open spec fn sram_next_buffer(s: SramState) -> Seq<Option<usize>> {
    advance_reads(s.read_latency, s.rdaddr_buffer@, s.read_addr)
}

/// Pending read addresses `buf` after one cycle whose read address is `a`.
pub open spec fn advance_reads(latency: usize, buf: Seq<Option<usize>>, a: Option<usize>) -> Seq<Option<usize>> {
    if latency == 0 || buf.len() == 0 {
        buf
    } else {
        buf.drop_first().push(a)
    }
}

/// The kind tag of a payload.
pub open spec fn type_of(k: NodeKind) -> NodeType {
    match k {
        NodeKind::Input(_) => NodeType::Input,
        NodeKind::Reg(_) => NodeType::Reg,
        NodeKind::Output => NodeType::Output,
        NodeKind::Comb(_) => NodeType::Comb,
        NodeKind::Sram(_) => NodeType::Sram,
    }
}

/// Kinds that receive wavefront 0 without waiting for their parents: inputs,
/// registers and memory arrays. An element enters at most one wavefront, so
/// a memory array stays at wavefront 0 even when a write driver feeds it;
/// its write is taken up by the relaxation passes, which revisit it.
pub open spec fn is_anchor(t: NodeType) -> bool {
    t == NodeType::Input || t == NodeType::Reg || t == NodeType::Sram
}

/// Kinds whose value is computed again in every relaxation pass.
pub open spec fn is_state(t: NodeType) -> bool {
    t == NodeType::Reg || t == NodeType::Sram
}

impl SramState {
    /// Performs the read port's work for a cycle and returns the value read.
    pub fn read_port(&mut self) -> (r: Value)
        ensures
            r == sram_read_value(*old(self)),
            final(self).rdaddr_buffer@ == sram_next_buffer(*old(self)),
            final(self).memory@ == old(self).memory@,
            final(self).read_latency == old(self).read_latency,
            final(self).read_addr == old(self).read_addr,
            final(self).write_addr == old(self).write_addr,
    {
        if self.read_latency == 0 {
            read_cell(&self.memory, self.read_addr)
        } else if self.rdaddr_buffer.len() == 0 {
            Value::X
        } else {
            let a = self.rdaddr_buffer.remove(0);
            let r = read_cell(&self.memory, a);
            self.rdaddr_buffer.push(self.read_addr);
            r
        }
    }

    /// Writes `v` at the write address, if there is one and it is in range.
    pub fn write_port(&mut self, v: Value)
        ensures
            final(self).memory@ == mem_write(old(self).memory@, old(self).write_addr, v),
            final(self).rdaddr_buffer@ == old(self).rdaddr_buffer@,
            final(self).read_latency == old(self).read_latency,
            final(self).read_addr == old(self).read_addr,
            final(self).write_addr == old(self).write_addr,
    {
        if let Some(a) = self.write_addr {
            if a < self.memory.len() {
                self.memory.set(a, v);
            }
        }
    }
}

/// Reads a memory cell; unknown for no address or one out of range.
pub fn read_cell(mem: &Vec<Value>, a: Option<usize>) -> (r: Value)
    ensures
        r == mem_read(mem@, a),
{
    match a {
        Some(i) => if i < mem.len() { mem[i] } else { Value::X },
        None => Value::X,
    }
}

impl RtlNode {
    /// A primary input driven with `sig_val`.
    pub fn new_input(name: String, sig_val: Value) -> (r: RtlNode)
        ensures
            r.name == name,
            r.kind == NodeKind::Input(sig_val),
    {
        RtlNode { name, kind: NodeKind::Input(sig_val) }
    }

    /// A register that holds `reg_init` when nothing drives it.
    pub fn new_reg(name: String, reg_init: Value) -> (r: RtlNode)
        ensures
            r.name == name,
            r.kind == NodeKind::Reg(reg_init),
    {
        RtlNode { name, kind: NodeKind::Reg(reg_init) }
    }

    /// A primary output.
    pub fn new_output(name: String) -> (r: RtlNode)
        ensures
            r.name == name,
            r.kind == NodeKind::Output,
    {
        RtlNode { name, kind: NodeKind::Output }
    }

    /// A gate computing `op_type`.
    pub fn new_comb(name: String, op_type: OpType) -> (r: RtlNode)
        ensures
            r.name == name,
            r.kind == NodeKind::Comb(op_type),
    {
        RtlNode { name, kind: NodeKind::Comb(op_type) }
    }

    /// A memory array over `memory`, whose reads surface `read_latency`
    /// cycles after they are issued; no read is pending at first.
    pub fn new_sram(
        name: String,
        memory: Vec<Value>,
        read_latency: usize,
        read_addr: Option<usize>,
        write_addr: Option<usize>,
    ) -> (r: RtlNode)
        ensures
            r.name == name,
            r.kind is Sram,
            r.kind->Sram_0.memory == memory,
            r.kind->Sram_0.read_latency == read_latency,
            r.kind->Sram_0.rdaddr_buffer@ == Seq::new(read_latency as nat, |i: int| None::<usize>),
            r.kind->Sram_0.read_addr == read_addr,
            r.kind->Sram_0.write_addr == write_addr,
    {
        let mut rdaddr_buffer: Vec<Option<usize>> = Vec::new();
        let mut i: usize = 0;
        while i < read_latency
            invariant
                i <= read_latency,
                rdaddr_buffer@ == Seq::new(i as nat, |j: int| None::<usize>),
            decreases read_latency - i,
        {
            rdaddr_buffer.push(None);
            i = i + 1;
            assert(rdaddr_buffer@ =~= Seq::new(i as nat, |j: int| None::<usize>));
        }
        let s = SramState { memory, read_latency, rdaddr_buffer, read_addr, write_addr };
        RtlNode { name, kind: NodeKind::Sram(s) }
    }

    /// The kind of this element.
    pub fn node_type(&self) -> (r: NodeType)
        ensures
            r == type_of(self.kind),
    {
        match self.kind {
            NodeKind::Input(_) => NodeType::Input,
            NodeKind::Reg(_) => NodeType::Reg,
            NodeKind::Output => NodeType::Output,
            NodeKind::Comb(_) => NodeType::Comb,
            NodeKind::Sram(_) => NodeType::Sram,
        }
    }
}

} // verus!
