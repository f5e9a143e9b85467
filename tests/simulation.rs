use rtl_sim::{
    create_example_circuit, create_sram_circuit, NodeKind, NodeType, OpType, RtlNode,
    RtlSimulator, SimError, Value,
};

fn idx(sim: &RtlSimulator, name: &str) -> usize {
    sim.find_node(name).expect("node present")
}

fn value(sim: &RtlSimulator, name: &str) -> Option<Value> {
    sim.values[idx(sim, name)]
}

fn gate_with_inputs(op: OpType, a: Value, b: Value) -> RtlSimulator {
    let mut sim = RtlSimulator::new();
    sim.add_node(RtlNode::new_input("a".to_string(), a)).unwrap();
    sim.add_node(RtlNode::new_input("b".to_string(), b)).unwrap();
    sim.add_node(RtlNode::new_comb("g".to_string(), op)).unwrap();
    sim.add_edge("a", "g").unwrap();
    sim.add_edge("b", "g").unwrap();
    sim
}

fn set_read_addr(sim: &mut RtlSimulator, i: usize, addr: Option<usize>) {
    match &mut sim.nodes[i].kind {
        NodeKind::Sram(s) => s.read_addr = addr,
        _ => panic!("not a memory array"),
    }
}

fn memory_of(sim: &RtlSimulator, i: usize) -> Vec<Value> {
    match &sim.nodes[i].kind {
        NodeKind::Sram(s) => s.memory.clone(),
        _ => panic!("not a memory array"),
    }
}

#[test]
fn and_with_unknown_operand_is_unknown() {
    let mut sim = gate_with_inputs(OpType::And, Value::Bit(1), Value::X);
    sim.topological_sort_with_levels();
    assert_eq!(value(&sim, "g"), Some(Value::X));
}

#[test]
fn and_of_zero_and_unknown_is_unknown() {
    let mut sim = gate_with_inputs(OpType::And, Value::X, Value::Bit(0));
    sim.topological_sort_with_levels();
    assert_eq!(value(&sim, "g"), Some(Value::X));
}

#[test]
fn or_with_unknown_operand_passes_other() {
    let mut sim = gate_with_inputs(OpType::Or, Value::X, Value::Bit(0));
    sim.topological_sort_with_levels();
    assert_eq!(value(&sim, "g"), Some(Value::Bit(0)));
}

#[test]
fn or_of_two_unknowns_is_unknown() {
    let mut sim = gate_with_inputs(OpType::Or, Value::X, Value::X);
    sim.topological_sort_with_levels();
    assert_eq!(value(&sim, "g"), Some(Value::X));
}

#[test]
fn gate_truth_tables_on_defined_bits() {
    for a in 0u8..2 {
        for b in 0u8..2 {
            let mut and = gate_with_inputs(OpType::And, Value::Bit(a), Value::Bit(b));
            and.topological_sort_with_levels();
            assert_eq!(value(&and, "g"), Some(Value::Bit(a & b)));
            let mut or = gate_with_inputs(OpType::Or, Value::Bit(a), Value::Bit(b));
            or.topological_sort_with_levels();
            assert_eq!(value(&or, "g"), Some(Value::Bit(a | b)));
        }
    }
}

#[test]
fn not_gate_inverts_and_keeps_unknown() {
    for (input, expected) in [(Value::Bit(0), Value::Bit(1)), (Value::Bit(1), Value::Bit(0)), (Value::X, Value::X)] {
        let mut sim = RtlSimulator::new();
        sim.add_node(RtlNode::new_input("a".to_string(), input)).unwrap();
        sim.add_node(RtlNode::new_comb("n".to_string(), OpType::Not)).unwrap();
        sim.add_edge("a", "n").unwrap();
        sim.topological_sort_with_levels();
        assert_eq!(value(&sim, "n"), Some(expected));
    }
}

#[test]
fn gate_missing_an_operand_is_unknown() {
    let mut sim = RtlSimulator::new();
    sim.add_node(RtlNode::new_input("a".to_string(), Value::Bit(1))).unwrap();
    sim.add_node(RtlNode::new_comb("g".to_string(), OpType::And)).unwrap();
    sim.add_edge("a", "g").unwrap();
    sim.topological_sort_with_levels();
    assert_eq!(value(&sim, "g"), Some(Value::X));
}

#[test]
fn operands_follow_edge_insertion_order() {
    let mut sim = RtlSimulator::new();
    sim.add_node(RtlNode::new_input("a".to_string(), Value::Bit(0))).unwrap();
    sim.add_node(RtlNode::new_input("b".to_string(), Value::Bit(1))).unwrap();
    sim.add_node(RtlNode::new_output("o".to_string())).unwrap();
    sim.add_edge("b", "o").unwrap();
    sim.add_edge("a", "o").unwrap();
    assert_eq!(sim.get_parents(2), vec![1, 0]);
    sim.topological_sort_with_levels();
    assert_eq!(value(&sim, "o"), Some(Value::Bit(1)));
}

#[test]
fn sram_zero_latency_reads_in_same_cycle() {
    let mut sim = create_sram_circuit();
    let levels = sim.topological_sort_with_levels();
    assert_eq!(value(&sim, "sram1"), Some(Value::Bit(3)));
    assert_eq!(value(&sim, "out_data"), Some(Value::Bit(3)));
    assert_eq!(levels, vec![Some(0), Some(1)]);
}

#[test]
fn sram_out_of_range_read_is_unknown() {
    let mut sim = RtlSimulator::new();
    sim.add_node(RtlNode::new_sram("m".to_string(), vec![Value::Bit(1)], 0, Some(5), None)).unwrap();
    sim.topological_sort_with_levels();
    assert_eq!(value(&sim, "m"), Some(Value::X));
}

#[test]
fn sram_read_latency_delays_by_l_cycles() {
    let mut sim = RtlSimulator::new();
    let mem = vec![Value::Bit(1), Value::Bit(2), Value::Bit(3), Value::Bit(4)];
    let m = sim.add_node(RtlNode::new_sram("m".to_string(), mem, 2, Some(0), None)).unwrap();
    let mut seen = Vec::new();
    for addr in [Some(0), Some(3), Some(1), None, Some(2)] {
        set_read_addr(&mut sim, m, addr);
        sim.topological_sort_with_levels();
        seen.push(sim.values[m]);
    }
    assert_eq!(
        seen,
        vec![Some(Value::X), Some(Value::X), Some(Value::Bit(1)), Some(Value::Bit(4)), Some(Value::Bit(2))]
    );
    match &sim.nodes[m].kind {
        NodeKind::Sram(s) => assert_eq!(s.rdaddr_buffer, vec![None, Some(2)]),
        _ => panic!("not a memory array"),
    }
}

#[test]
fn sram_new_buffer_holds_latency_empty_entries() {
    let node = RtlNode::new_sram("m".to_string(), vec![Value::X; 4], 3, Some(1), Some(2));
    match node.kind {
        NodeKind::Sram(s) => {
            assert_eq!(s.rdaddr_buffer, vec![None, None, None]);
            assert_eq!(s.read_latency, 3);
            assert_eq!(s.read_addr, Some(1));
            assert_eq!(s.write_addr, Some(2));
        }
        _ => panic!("not a memory array"),
    }
}

#[test]
fn sram_write_stores_parent_value() {
    let mut sim = RtlSimulator::new();
    let mem = vec![Value::Bit(1), Value::Bit(2), Value::Bit(3), Value::Bit(4)];
    let m = sim.add_node(RtlNode::new_sram("m".to_string(), mem, 0, None, Some(2))).unwrap();
    sim.add_node(RtlNode::new_input("in1".to_string(), Value::Bit(5))).unwrap();
    sim.add_edge("in1", "m").unwrap();
    sim.topological_sort_with_levels();
    assert_eq!(memory_of(&sim, m), vec![Value::Bit(1), Value::Bit(2), Value::Bit(5), Value::Bit(4)]);
    assert_eq!(sim.values[m], Some(Value::X));
}

#[test]
fn sram_write_out_of_range_changes_nothing() {
    let mut sim = RtlSimulator::new();
    let m = sim.add_node(RtlNode::new_sram("m".to_string(), vec![Value::Bit(1)], 0, Some(0), Some(7))).unwrap();
    sim.add_node(RtlNode::new_input("in1".to_string(), Value::Bit(0))).unwrap();
    sim.add_edge("in1", "m").unwrap();
    sim.topological_sort_with_levels();
    assert_eq!(memory_of(&sim, m), vec![Value::Bit(1)]);
}

#[test]
fn register_without_parent_commits_init_every_cycle() {
    let mut sim = RtlSimulator::new();
    let r = sim.add_node(RtlNode::new_reg("r".to_string(), Value::Bit(1))).unwrap();
    for _ in 0..3 {
        sim.topological_sort_with_levels();
        assert_eq!(sim.values[r], Some(Value::Bit(1)));
    }
}

#[test]
fn register_follows_its_parent() {
    let mut sim = RtlSimulator::new();
    sim.add_node(RtlNode::new_input("i".to_string(), Value::Bit(1))).unwrap();
    sim.add_node(RtlNode::new_comb("n".to_string(), OpType::Not)).unwrap();
    sim.add_node(RtlNode::new_reg("r".to_string(), Value::X)).unwrap();
    sim.add_edge("i", "n").unwrap();
    sim.add_edge("n", "r").unwrap();
    sim.topological_sort_with_levels();
    assert_eq!(value(&sim, "r"), Some(Value::Bit(0)));
}

#[test]
fn feedback_loop_example_settles() {
    let mut sim = create_example_circuit();
    let levels = sim.topological_sort_with_levels();
    let expect = [
        ("R1", Value::Bit(1)),
        ("R2", Value::Bit(0)),
        ("R3", Value::Bit(1)),
        ("in1", Value::Bit(1)),
        ("in2", Value::Bit(1)),
        ("out", Value::Bit(0)),
        ("A", Value::Bit(1)),
        ("B", Value::Bit(1)),
        ("C", Value::Bit(1)),
        ("D", Value::Bit(0)),
        ("E", Value::Bit(0)),
    ];
    for (name, v) in expect {
        assert_eq!(value(&sim, name), Some(v), "value of {}", name);
    }
    let lv = |name: &str| levels[idx(&sim, name)];
    for name in ["R1", "R2", "R3", "in1", "in2"] {
        assert_eq!(lv(name), Some(0));
    }
    for name in ["A", "D", "E"] {
        assert_eq!(lv(name), Some(1));
    }
    assert_eq!(lv("B"), Some(2));
    assert_eq!(lv("out"), Some(2));
    assert_eq!(lv("C"), Some(3));
}

#[test]
fn wavefronts_grow_along_edges_except_into_anchors() {
    let mut sim = create_example_circuit();
    let levels = sim.topological_sort_with_levels();
    for v in 0..sim.nodes.len() {
        for p in sim.get_parents(v) {
            let t = sim.nodes[v].node_type();
            if t == NodeType::Reg || t == NodeType::Input || t == NodeType::Sram {
                assert_eq!(levels[v], Some(0));
            } else if let Some(k) = levels[v] {
                assert!(levels[p].unwrap() < k);
            }
        }
    }
}

#[test]
fn rerunning_without_memory_changes_nothing() {
    let mut sim = create_example_circuit();
    sim.topological_sort_with_levels();
    let first = sim.values.clone();
    sim.topological_sort_with_levels();
    assert_eq!(sim.values, first);
}

#[test]
fn unreached_nodes_get_no_value_or_wavefront() {
    let mut sim = RtlSimulator::new();
    sim.add_node(RtlNode::new_comb("a".to_string(), OpType::Not)).unwrap();
    sim.add_node(RtlNode::new_comb("b".to_string(), OpType::Not)).unwrap();
    sim.add_node(RtlNode::new_output("o".to_string())).unwrap();
    sim.add_edge("a", "b").unwrap();
    sim.add_edge("b", "a").unwrap();
    let levels = sim.topological_sort_with_levels();
    assert_eq!(levels, vec![None, None, None]);
    assert_eq!(sim.values, vec![None, None, None]);
}

#[test]
fn duplicate_name_is_refused() {
    let mut sim = RtlSimulator::new();
    assert_eq!(sim.add_node(RtlNode::new_output("o".to_string())), Ok(0));
    assert_eq!(sim.add_node(RtlNode::new_output("p".to_string())), Ok(1));
    assert_eq!(sim.add_node(RtlNode::new_input("o".to_string(), Value::X)), Err(SimError::DuplicateName));
    assert_eq!(sim.nodes.len(), 2);
}

#[test]
fn edge_to_unknown_node_is_refused() {
    let mut sim = RtlSimulator::new();
    sim.add_node(RtlNode::new_output("o".to_string())).unwrap();
    sim.add_node(RtlNode::new_input("i".to_string(), Value::Bit(0))).unwrap();
    assert_eq!(sim.add_edge("i", "missing"), Err(SimError::UnknownNode));
    assert_eq!(sim.add_edge("missing", "o"), Err(SimError::UnknownNode));
    assert_eq!(sim.add_edge("i", "o"), Ok(0));
    assert_eq!(sim.add_edge("i", "o"), Ok(1));
    assert_eq!(sim.get_parents(0), vec![1, 1]);
}

#[test]
fn value_from_text() {
    assert_eq!(Value::from_str("0"), Value::Bit(0));
    assert_eq!(Value::from_str("1"), Value::Bit(1));
    assert_eq!(Value::from_str("X"), Value::X);
    assert_eq!(Value::from_str("2"), Value::X);
    assert_eq!(Value::from_str(""), Value::X);
    assert_eq!(Value::from_str("10"), Value::X);
}

#[test]
fn value_to_int() {
    assert_eq!(Value::Bit(1).to_int(), Some(1));
    assert_eq!(Value::Bit(3).to_int(), Some(3));
    assert_eq!(Value::X.to_int(), None);
}

#[test]
fn constructors_set_kinds() {
    assert_eq!(RtlNode::new_input("i".to_string(), Value::Bit(1)).node_type(), NodeType::Input);
    assert_eq!(RtlNode::new_reg("r".to_string(), Value::X).node_type(), NodeType::Reg);
    assert_eq!(RtlNode::new_output("o".to_string()).node_type(), NodeType::Output);
    assert_eq!(RtlNode::new_comb("c".to_string(), OpType::Or).node_type(), NodeType::Comb);
    assert_eq!(RtlNode::new_sram("m".to_string(), vec![], 0, None, None).node_type(), NodeType::Sram);
    assert_eq!(RtlNode::new_comb("c".to_string(), OpType::Or).name, "c");
}

#[test]
fn gate_with_extra_operands_is_unknown() {
    let mut sim = RtlSimulator::new();
    sim.add_node(RtlNode::new_input("a".to_string(), Value::Bit(0))).unwrap();
    sim.add_node(RtlNode::new_input("b".to_string(), Value::Bit(0))).unwrap();
    sim.add_node(RtlNode::new_input("c".to_string(), Value::Bit(1))).unwrap();
    sim.add_node(RtlNode::new_comb("n".to_string(), OpType::Not)).unwrap();
    sim.add_node(RtlNode::new_comb("o".to_string(), OpType::Or)).unwrap();
    sim.add_edge("a", "n").unwrap();
    sim.add_edge("b", "n").unwrap();
    sim.add_edge("a", "o").unwrap();
    sim.add_edge("b", "o").unwrap();
    sim.add_edge("c", "o").unwrap();
    sim.topological_sort_with_levels();
    assert_eq!(value(&sim, "n"), Some(Value::X));
    assert_eq!(value(&sim, "o"), Some(Value::X));
}

#[test]
fn relaxation_pass_stores_register_and_output_values() {
    let mut sim = RtlSimulator::new();
    sim.add_node(RtlNode::new_input("i".to_string(), Value::Bit(1))).unwrap();
    sim.add_node(RtlNode::new_reg("r".to_string(), Value::X)).unwrap();
    sim.add_node(RtlNode::new_output("o".to_string())).unwrap();
    sim.add_node(RtlNode::new_comb("n".to_string(), OpType::Not)).unwrap();
    sim.add_edge("i", "r").unwrap();
    sim.add_edge("i", "o").unwrap();
    sim.add_edge("i", "n").unwrap();
    let pars = sim.all_parents();
    let mut cur = vec![Some(Value::Bit(1)), Some(Value::X), None, None];
    sim.record_out(&mut cur, &pars);
    assert_eq!(cur, vec![Some(Value::Bit(1)), Some(Value::Bit(1)), Some(Value::Bit(1)), Some(Value::Bit(0))]);
    assert_eq!(sim.values, vec![None, Some(Value::Bit(1)), Some(Value::Bit(1)), None]);
}

#[test]
fn sample_circuits_have_their_elements_and_edges() {
    let ex = create_example_circuit();
    let names: Vec<&str> = ex.nodes.iter().map(|n| n.name.as_str()).collect();
    assert_eq!(names, vec!["R1", "R2", "R3", "in1", "in2", "out", "A", "B", "C", "D", "E"]);
    assert_eq!(ex.get_parents(2), vec![8]);
    assert_eq!(ex.get_parents(7), vec![1, 6]);
    assert_eq!(ex.values, vec![None; 11]);
    let sr = create_sram_circuit();
    assert_eq!(sr.nodes.len(), 2);
    assert_eq!(sr.get_parents(1), vec![0]);
    assert_eq!(memory_of(&sr, 0), vec![Value::Bit(1), Value::Bit(2), Value::Bit(3), Value::Bit(4)]);
}
