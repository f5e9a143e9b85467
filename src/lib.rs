//! A cycle-based simulator for register-transfer-level circuits over
//! tri-state values (0, 1 and unknown).
//!
//! A circuit is a directed graph of inputs, outputs, registers, gates and
//! memory arrays, and may hold cycles through registers and memory arrays.
//! Each simulation cycle assigns wavefront numbers breadth-first from the
//! inputs, registers and memory arrays, and after each wavefront runs a
//! relaxation pass that evaluates every element whose parents all have a
//! value; the cycle's values are then committed.
//!
//! - `value`: the value domain and its logic operators.
//! - `node`: element kinds and memory-array state.
//! - `topology`: the edges, held in a petgraph `Graph`.
//! - `simulator`: a circuit and its construction.
//! - `relax`: one relaxation pass.
//! - `levels`: what a wavefront assignment must satisfy.
//! - `cycle`: one simulation cycle.
//! - `laws`: properties spanning several steps.
//! - `circuits`: sample circuits.
pub mod value;
pub mod node;
pub mod topology;
pub mod simulator;
pub mod relax;
pub mod levels;
pub mod cycle;
pub mod laws;
pub mod circuits;

pub use value::{Value, OpType};
pub use node::{NodeType, NodeKind, SramState, RtlNode};
pub use topology::RtlEdge;
pub use simulator::{RtlSimulator, SimError};
pub use circuits::{create_example_circuit, create_sram_circuit};
