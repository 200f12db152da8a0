//! Value and constraint types of the circuit.

use crate::node::Node;
use vstd::prelude::*;

verus! {

/// The two arithmetic operations a circuit node can be built from.
#[derive(Debug, Clone, Copy, PartialEq, Eq)]
pub enum OpKind {
    Add,
    Mul,
}

/// The kinds of unevaluated expressions a node can hold.
///
/// `Add`/`Mul` carry the accumulator: the value of the one operand that was
/// already concrete when the node was created, if there was one. `Input` marks
/// a declared input that has not been assigned a value yet.
#[derive(Debug, Clone, Copy, PartialEq, Eq)]
pub enum ExprVal {
    Add(Option<u64>),
    Mul(Option<u64>),
    Input,
}

/// Either a concrete unsigned 64-bit value or a pending expression.
#[derive(Debug, Clone, Copy, PartialEq, Eq)]
pub enum CustomU64 {
    Val(u64),
    Expr(ExprVal),
}

/// A recorded relation between nodes of the circuit, identified by their
/// indices in the builder's node arena. `Add(a, b, c)` asserts that the value
/// of node `c` is the (wrapping) sum of the values of nodes `a` and `b`;
/// `Mul(a, b, c)` the analogous product; `Eq(a, b)` asserts equal values.
#[derive(Debug, Clone, Copy, PartialEq, Eq)]
pub enum Constraints {
    Add(usize, usize, usize),
    Mul(usize, usize, usize),
    Eq(usize, usize),
}

/// True when the value is concrete.
pub open spec fn is_concrete(v: CustomU64) -> bool {
    match v {
        CustomU64::Val(_) => true,
        CustomU64::Expr(_) => false,
    }
}

/// The concrete value held, for a concrete `CustomU64`.
pub open spec fn concrete_of(v: CustomU64) -> u64 {
    match v {
        CustomU64::Val(x) => x,
        CustomU64::Expr(_) => 0,
    }
}

/// The given operation, wrapping at the 64-bit boundary.
pub open spec fn op_apply(op: OpKind, x: u64, y: u64) -> u64 {
    match op {
        OpKind::Add => vstd::wrapping::u64_specs::wrapping_add(x, y),
        OpKind::Mul => vstd::wrapping::u64_specs::wrapping_mul(x, y),
    }
}

/// Both wrapping operations are commutative.
pub(crate) proof fn lemma_op_apply_commutes(op: OpKind, x: u64, y: u64)
    ensures
        op_apply(op, x, y) == op_apply(op, y, x),
{
    match op {
        OpKind::Add => {
        },
        OpKind::Mul => {
            assert(x as nat * y as nat == y as nat * x as nat) by (nonlinear_arith);
        },
    }
}

/// What it means for a constraint to hold over the given nodes: every node it
/// names exists and is concrete, and the recorded relation holds between the
/// concrete values. A constraint over unresolved nodes does not hold.
pub open spec fn constraint_valid(c: Constraints, nodes: Seq<Node>) -> bool {
    match c {
        Constraints::Add(a, b, r) => {
            &&& a < nodes.len()
            &&& b < nodes.len()
            &&& r < nodes.len()
            &&& is_concrete(nodes[a as int].value)
            &&& is_concrete(nodes[b as int].value)
            &&& is_concrete(nodes[r as int].value)
            &&& concrete_of(nodes[r as int].value) == op_apply(
                OpKind::Add,
                concrete_of(nodes[a as int].value),
                concrete_of(nodes[b as int].value),
            )
        },
        Constraints::Mul(a, b, r) => {
            &&& a < nodes.len()
            &&& b < nodes.len()
            &&& r < nodes.len()
            &&& is_concrete(nodes[a as int].value)
            &&& is_concrete(nodes[b as int].value)
            &&& is_concrete(nodes[r as int].value)
            &&& concrete_of(nodes[r as int].value) == op_apply(
                OpKind::Mul,
                concrete_of(nodes[a as int].value),
                concrete_of(nodes[b as int].value),
            )
        },
        Constraints::Eq(a, b) => {
            &&& a < nodes.len()
            &&& b < nodes.len()
            &&& is_concrete(nodes[a as int].value)
            &&& is_concrete(nodes[b as int].value)
            &&& concrete_of(nodes[a as int].value) == concrete_of(nodes[b as int].value)
        },
    }
}

impl Constraints {
    /// Whether this constraint holds over the current node values.
    ///
    /// A constraint whose nodes are not all concrete yet is invalid by
    /// definition, never vacuously true. Checking performs no mutation.
    pub fn is_valid(&self, nodes: &Vec<Node>) -> (r: bool)
        ensures
            r == constraint_valid(*self, nodes@),
    {
        match *self {
            Constraints::Add(a, b, c) => {
                if a < nodes.len() && b < nodes.len() && c < nodes.len() {
                    match (nodes[a].value, nodes[b].value, nodes[c].value) {
                        (CustomU64::Val(x), CustomU64::Val(y), CustomU64::Val(z)) => {
                            z == x.wrapping_add(y)
                        },
                        _ => false,
                    }
                } else {
                    false
                }
            },
            Constraints::Mul(a, b, c) => {
                if a < nodes.len() && b < nodes.len() && c < nodes.len() {
                    match (nodes[a].value, nodes[b].value, nodes[c].value) {
                        (CustomU64::Val(x), CustomU64::Val(y), CustomU64::Val(z)) => {
                            z == x.wrapping_mul(y)
                        },
                        _ => false,
                    }
                } else {
                    false
                }
            },
            Constraints::Eq(a, b) => {
                if a < nodes.len() && b < nodes.len() {
                    match (nodes[a].value, nodes[b].value) {
                        (CustomU64::Val(x), CustomU64::Val(y)) => x == y,
                        _ => false,
                    }
                } else {
                    false
                }
            },
        }
    }
}

} // verus!
