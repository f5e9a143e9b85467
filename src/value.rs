//! The tri-state value domain and its gate operators.
use vstd::prelude::*;

verus! {

/// A one-bit signal that is either unknown (`X`) or a defined bit.
///
/// Memory cells may hold any byte in `Bit`; gates treat `Bit(1)` as true.
#[derive(Debug, Clone, Copy, PartialEq, Eq, Structural)]
pub enum Value {
    X,
    Bit(u8),
}

/// The operator of a combinational gate.
#[derive(Debug, Clone, Copy, PartialEq, Eq, Structural)]
pub enum OpType {
    Not,
    And,
    Or,
}

/// NOT: unknown stays unknown; `Bit(1)` becomes `Bit(0)`, any other bit `Bit(1)`.
pub open spec fn not_spec(a: Value) -> Value {
    match a {
        Value::X => Value::X,
        Value::Bit(b) => Value::Bit(if b == 1 { 0u8 } else { 1u8 }),
    }
}

/// AND: an unknown operand makes the result unknown, whatever the other one is.
pub open spec fn and_spec(a: Value, b: Value) -> Value {
    match (a, b) {
        (Value::Bit(x), Value::Bit(y)) => Value::Bit(x & y),
        _ => Value::X,
    }
}

/// OR: unknown only when both operands are unknown; with one unknown
/// operand the result is the other operand as it is.
pub open spec fn or_spec(a: Value, b: Value) -> Value {
    match (a, b) {
        (Value::X, Value::X) => Value::X,
        (Value::X, Value::Bit(y)) => Value::Bit(y),
        (Value::Bit(x), Value::X) => Value::Bit(x),
        (Value::Bit(x), Value::Bit(y)) => Value::Bit(x | y),
    }
}

/// The number of operands that a gate reads.
pub open spec fn arity(op: OpType) -> nat {
    match op {
        OpType::Not => 1,
        _ => 2,
    }
}

/// What a gate computes from its operands, first operand first; with a
/// number of operands other than its operator takes, the result is unknown.
pub open spec fn comb_spec(op: OpType, vals: Seq<Value>) -> Value {
    if vals.len() != arity(op) {
        Value::X
    } else {
        match op {
            OpType::Not => not_spec(vals[0]),
            OpType::And => and_spec(vals[0], vals[1]),
            OpType::Or => or_spec(vals[0], vals[1]),
        }
    }
}

/// The tri-state NOT.
pub fn value_not(a: Value) -> (r: Value)
    ensures
        r == not_spec(a),
{
    match a {
        Value::X => Value::X,
        Value::Bit(b) => Value::Bit(if b == 1 { 0 } else { 1 }),
    }
}

/// The tri-state AND, with unknown dominating.
pub fn value_and(a: Value, b: Value) -> (r: Value)
    ensures
        r == and_spec(a, b),
{
    match (a, b) {
        (Value::Bit(x), Value::Bit(y)) => Value::Bit(x & y),
        _ => Value::X,
    }
}

/// The tri-state OR, which passes a defined operand through an unknown one.
pub fn value_or(a: Value, b: Value) -> (r: Value)
    ensures
        r == or_spec(a, b),
{
    match (a, b) {
        (Value::X, Value::X) => Value::X,
        (Value::X, Value::Bit(y)) => Value::Bit(y),
        (Value::Bit(x), Value::X) => Value::Bit(x),
        (Value::Bit(x), Value::Bit(y)) => Value::Bit(x | y),
    }
}

/// Applies a gate to its operand values, taken in the order of its parents.
pub fn compute_comb_logic(op: OpType, vals: &Vec<Value>) -> (r: Value)
    ensures
        r == comb_spec(op, vals@),
{
    match op {
        OpType::Not => {
            if vals.len() != 1 {
                Value::X
            } else {
                value_not(vals[0])
            }
        },
        OpType::And => {
            if vals.len() != 2 {
                Value::X
            } else {
                value_and(vals[0], vals[1])
            }
        },
        OpType::Or => {
            if vals.len() != 2 {
                Value::X
            } else {
                value_or(vals[0], vals[1])
            }
        },
    }
}

/// The value that a one-character text names: "0", "1" or "X"; any other
/// text names the unknown value.
pub open spec fn value_of_text(t: Seq<char>) -> Value {
    if t == seq!['0'] {
        Value::Bit(0)
    } else if t == seq!['1'] {
        Value::Bit(1)
    } else {
        Value::X
    }
}

/// The bit of a value, if it is defined.
pub open spec fn bit_of(v: Value) -> Option<u8> {
    match v {
        Value::Bit(b) => Some(b),
        Value::X => None,
    }
}

impl Value {
    /// Reads "0", "1" or "X"; anything else reads as unknown.
    pub fn from_str(s: &str) -> (r: Value)
        ensures
            r == value_of_text(s@),
    {
        proof {
            reveal_strlit("0");
            reveal_strlit("1");
            assert("0"@ =~= seq!['0']);
            assert("1"@ =~= seq!['1']);
        }
        let t = s.to_owned();
        if t == "0".to_owned() {
            Value::Bit(0)
        } else if t == "1".to_owned() {
            Value::Bit(1)
        } else {
            Value::X
        }
    }

    /// The bit, or `None` for the unknown value.
    pub fn to_int(&self) -> (r: Option<u8>)
        ensures
            r == bit_of(*self),
    {
        match self {
            Value::Bit(b) => Some(*b),
            Value::X => None,
        }
    }

}

} // verus!
