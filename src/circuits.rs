//! Small sample circuits.
use vstd::prelude::*;
use crate::value::{Value, OpType};
use crate::node::{NodeKind, RtlNode};
use crate::simulator::RtlSimulator;
use crate::topology::{graph_new, graph_add_node, graph_add_edge, graph_edges, graph_node_count};

verus! {

/// Registers, inputs, an output and gates, with feedback through register
/// `R3` (`R3 -> C -> R3`, and `R3 -> E -> R2 -> B -> C`). The elements, in
/// index order, are R1, R2, R3, in1, in2, out, A, B, C, D, E.
pub fn create_example_circuit() -> (r: RtlSimulator)
    ensures
        r.wf(),
        r.nodes@.len() == 11,
        r.nodes@[0].name@ == "R1"@ && r.nodes@[0].kind == NodeKind::Reg(Value::X),
        r.nodes@[1].name@ == "R2"@ && r.nodes@[1].kind == NodeKind::Reg(Value::Bit(1)),
        r.nodes@[2].name@ == "R3"@ && r.nodes@[2].kind == NodeKind::Reg(Value::Bit(1)),
        r.nodes@[3].name@ == "in1"@ && r.nodes@[3].kind == NodeKind::Input(Value::Bit(1)),
        r.nodes@[4].name@ == "in2"@ && r.nodes@[4].kind == NodeKind::Input(Value::Bit(1)),
        r.nodes@[5].name@ == "out"@ && r.nodes@[5].kind == NodeKind::Output,
        r.nodes@[6].name@ == "A"@ && r.nodes@[6].kind == NodeKind::Comb(OpType::And),
        r.nodes@[7].name@ == "B"@ && r.nodes@[7].kind == NodeKind::Comb(OpType::Or),
        r.nodes@[8].name@ == "C"@ && r.nodes@[8].kind == NodeKind::Comb(OpType::And),
        r.nodes@[9].name@ == "D"@ && r.nodes@[9].kind == NodeKind::Comb(OpType::Not),
        r.nodes@[10].name@ == "E"@ && r.nodes@[10].kind == NodeKind::Comb(OpType::Not),
        r.edges() == seq![
            (3usize, 0usize), (0, 6), (4, 6), (1, 7), (6, 7), (7, 8),
            (2, 8), (8, 2), (2, 9), (2, 10), (9, 5), (10, 1),
        ],
        r.values@ == Seq::new(11, |i: int| None::<Value>),
{
    let mut nodes: Vec<RtlNode> = Vec::new();
    nodes.push(RtlNode::new_reg("R1".to_owned(), Value::X));
    nodes.push(RtlNode::new_reg("R2".to_owned(), Value::Bit(1)));
    nodes.push(RtlNode::new_reg("R3".to_owned(), Value::Bit(1)));
    nodes.push(RtlNode::new_input("in1".to_owned(), Value::Bit(1)));
    nodes.push(RtlNode::new_input("in2".to_owned(), Value::Bit(1)));
    nodes.push(RtlNode::new_output("out".to_owned()));
    nodes.push(RtlNode::new_comb("A".to_owned(), OpType::And));
    nodes.push(RtlNode::new_comb("B".to_owned(), OpType::Or));
    nodes.push(RtlNode::new_comb("C".to_owned(), OpType::And));
    nodes.push(RtlNode::new_comb("D".to_owned(), OpType::Not));
    nodes.push(RtlNode::new_comb("E".to_owned(), OpType::Not));
    let mut graph = graph_new();
    let mut values: Vec<Option<Value>> = Vec::new();
    let mut i: usize = 0;
    while i < 11
        invariant
            i <= 11,
            graph_node_count(graph) == i,
            graph_edges(graph) == Seq::<(usize, usize)>::empty(),
            values@ == Seq::new(i as nat, |j: int| None::<Value>),
        decreases 11 - i,
    {
        graph_add_node(&mut graph);
        values.push(None);
        i = i + 1;
        assert(values@ =~= Seq::new(i as nat, |j: int| None::<Value>));
    }
    graph_add_edge(&mut graph, 3, 0);
    graph_add_edge(&mut graph, 0, 6);
    graph_add_edge(&mut graph, 4, 6);
    graph_add_edge(&mut graph, 1, 7);
    graph_add_edge(&mut graph, 6, 7);
    graph_add_edge(&mut graph, 7, 8);
    graph_add_edge(&mut graph, 2, 8);
    graph_add_edge(&mut graph, 8, 2);
    graph_add_edge(&mut graph, 2, 9);
    graph_add_edge(&mut graph, 2, 10);
    graph_add_edge(&mut graph, 9, 5);
    graph_add_edge(&mut graph, 10, 1);
    proof {
        reveal_strlit("R1");
        reveal_strlit("R2");
        reveal_strlit("R3");
        reveal_strlit("in1");
        reveal_strlit("in2");
        reveal_strlit("out");
        reveal_strlit("A");
        reveal_strlit("B");
        reveal_strlit("C");
        reveal_strlit("D");
        reveal_strlit("E");
        let n = nodes@;
        let keys = seq![
            "R1"@, "R2"@, "R3"@, "in1"@, "in2"@, "out"@, "A"@, "B"@, "C"@, "D"@, "E"@,
        ];
        assert forall|k: int| 0 <= k < 11 implies #[trigger] n[k].name@ == keys[k] by {}
        assert forall|a: int, b: int| 0 <= a < b < 11 implies keys[a] != keys[b] by {
            if keys[a] == keys[b] {
                assert(keys[a].len() == keys[b].len());
                assert(keys[a][0] == keys[b][0]);
                assert(keys[a][keys[a].len() - 1] == keys[b][keys[b].len() - 1]);
            }
        }
        let es = graph_edges(graph);
        assert forall|k: int| 0 <= k < es.len() implies
            (#[trigger] es[k]).0 < 11 && es[k].1 < 11 by {}
    }
    RtlSimulator { graph, nodes, values }
}

/// A memory array `sram1` of four cells holding 1, 2, 3 and 4, read at
/// address 2 with no latency and no write address, feeding the output
/// `out_data`.
pub fn create_sram_circuit() -> (r: RtlSimulator)
    ensures
        r.wf(),
        r.nodes@.len() == 2,
        r.nodes@[0].name@ == "sram1"@,
        r.nodes@[0].kind is Sram,
        r.nodes@[0].kind->Sram_0.memory@ == seq![Value::Bit(1), Value::Bit(2), Value::Bit(3), Value::Bit(4)],
        r.nodes@[0].kind->Sram_0.read_latency == 0,
        r.nodes@[0].kind->Sram_0.rdaddr_buffer@ == Seq::<Option<usize>>::empty(),
        r.nodes@[0].kind->Sram_0.read_addr == Some(2usize),
        r.nodes@[0].kind->Sram_0.write_addr == None::<usize>,
        r.nodes@[1].name@ == "out_data"@ && r.nodes@[1].kind == NodeKind::Output,
        r.edges() == seq![(0usize, 1usize)],
        r.values@ == seq![None::<Value>, None::<Value>],
{
    let mut memory: Vec<Value> = Vec::new();
    memory.push(Value::Bit(1));
    memory.push(Value::Bit(2));
    memory.push(Value::Bit(3));
    memory.push(Value::Bit(4));
    let mut nodes: Vec<RtlNode> = Vec::new();
    nodes.push(RtlNode::new_sram("sram1".to_owned(), memory, 0, Some(2), None));
    nodes.push(RtlNode::new_output("out_data".to_owned()));
    let mut graph = graph_new();
    graph_add_node(&mut graph);
    graph_add_node(&mut graph);
    graph_add_edge(&mut graph, 0, 1);
    let mut values: Vec<Option<Value>> = Vec::new();
    values.push(None);
    values.push(None);
    proof {
        reveal_strlit("sram1");
        reveal_strlit("out_data");
        assert("sram1"@.len() != "out_data"@.len());
        assert(nodes@[0].kind->Sram_0.rdaddr_buffer@ =~= Seq::<Option<usize>>::empty());
        let es = graph_edges(graph);
        assert forall|k: int| 0 <= k < es.len() implies
            (#[trigger] es[k]).0 < 2 && es[k].1 < 2 by {}
    }
    RtlSimulator { graph, nodes, values }
}

} // verus!
