//! Graph vertices and the node-merge protocol for add/multiply.

use crate::builder::FillError;
use crate::enums::{concrete_of, is_concrete, op_apply, CustomU64, ExprVal, OpKind};
use crate::model::{
    denote, fill_ctx, fill_inv, lemma_edge_target, lemma_process_edge, lemma_sweep_advance,
    resolve_step, Origin,
};
use vstd::prelude::*;

verus! {

/// A vertex of the circuit graph.
///
/// Nodes live in an arena (the builder's node list) and refer to one another
/// by index, so that a node reachable from several parents is a single shared
/// vertex and a later write to its value is seen through every parent.
/// `children` lists the dependent nodes that must be revisited once this
/// node's value becomes concrete.
#[derive(Debug, Clone, PartialEq, Eq)]
pub struct Node {
    pub value: CustomU64,
    pub children: Vec<usize>,
}

/// The pending value a combine produces: the operation with an optional
/// already-known accumulator folded in.
pub open spec fn pending_value(op: OpKind, acc: Option<u64>) -> CustomU64 {
    match op {
        OpKind::Add => CustomU64::Expr(ExprVal::Add(acc)),
        OpKind::Mul => CustomU64::Expr(ExprVal::Mul(acc)),
    }
}

/// Everything `Node::combine` does to the node arena: a new node `r` is
/// appended whose state depends on the pair of operand states, and `r` is
/// registered as a child of each operand that is still unresolved.
pub open spec fn combine_post(
    pre: Seq<Node>,
    post: Seq<Node>,
    op: OpKind,
    a: usize,
    b: usize,
    r: usize,
) -> bool {
    let va = pre[a as int].value;
    let vb = pre[b as int].value;
    &&& r == pre.len()
    &&& post.len() == pre.len() + 1
    &&& forall|j: int| 0 <= j < pre.len() ==> (#[trigger] post[j]).value == pre[j].value
    &&& post[r as int].children@ == Seq::<usize>::empty()
    &&& (is_concrete(va) && is_concrete(vb) ==> {
        &&& post[r as int].value == CustomU64::Val(op_apply(op, concrete_of(va), concrete_of(vb)))
        &&& forall|j: int|
            0 <= j < pre.len() ==> (#[trigger] post[j]).children@ == pre[j].children@
    })
    &&& (is_concrete(va) && !is_concrete(vb) ==> {
        &&& post[r as int].value == pending_value(op, Some(concrete_of(va)))
        &&& post[b as int].children@ == pre[b as int].children@.push(r)
        &&& forall|j: int|
            0 <= j < pre.len() && j != b ==> (#[trigger] post[j]).children@ == pre[j].children@
    })
    &&& (!is_concrete(va) && is_concrete(vb) ==> {
        &&& post[r as int].value == pending_value(op, Some(concrete_of(vb)))
        &&& post[a as int].children@ == pre[a as int].children@.push(r)
        &&& forall|j: int|
            0 <= j < pre.len() && j != a ==> (#[trigger] post[j]).children@ == pre[j].children@
    })
    &&& (!is_concrete(va) && !is_concrete(vb) ==> {
        &&& post[r as int].value == pending_value(op, None)
        &&& (a == b ==> post[a as int].children@ == pre[a as int].children@.push(r).push(r))
        &&& (a != b ==> post[a as int].children@ == pre[a as int].children@.push(r)
            && post[b as int].children@ == pre[b as int].children@.push(r))
        &&& forall|j: int|
            0 <= j < pre.len() && j != a && j != b ==> (#[trigger] post[j]).children@
                == pre[j].children@
    })
}

/// Builds the concrete or pending value for a combine, as the merge protocol
/// dictates.
fn make_pending(op: OpKind, acc: Option<u64>) -> (r: CustomU64)
    ensures
        r == pending_value(op, acc),
{
    match op {
        OpKind::Add => CustomU64::Expr(ExprVal::Add(acc)),
        OpKind::Mul => CustomU64::Expr(ExprVal::Mul(acc)),
    }
}

/// Appends `c` to the child list of node `u`, leaving everything else as it
/// was.
fn push_child(nodes: &mut Vec<Node>, u: usize, c: usize)
    requires
        u < old(nodes)@.len(),
    ensures
        final(nodes)@.len() == old(nodes)@.len(),
        final(nodes)@[u as int].value == old(nodes)@[u as int].value,
        final(nodes)@[u as int].children@ == old(nodes)@[u as int].children@.push(c),
        forall|j: int|
            0 <= j < final(nodes)@.len() && j != u ==> (#[trigger] final(nodes)@[j]).value == old(
                nodes,
            )@[j].value && final(nodes)@[j].children@ == old(nodes)@[j].children@,
{
    nodes[u].children.push(c);
}

impl Node {
    /// Creates a fresh, unassigned input node.
    pub(crate) fn init() -> (r: Node)
        ensures
            r.value == CustomU64::Expr(ExprVal::Input),
            r.children@ == Seq::<usize>::empty(),
    {
        Node { value: CustomU64::Expr(ExprVal::Input), children: Vec::new() }
    }

    /// Creates a node holding the given concrete value.
    pub(crate) fn new(value: u64) -> (r: Node)
        ensures
            r.value == CustomU64::Val(value),
            r.children@ == Seq::<usize>::empty(),
    {
        Node { value: CustomU64::Val(value), children: Vec::new() }
    }

    /// Combines the operand nodes `a` and `b` under `op`, appending the result
    /// node to the arena and returning its index.
    ///
    /// Two concrete operands produce an immediately concrete result with no
    /// links into the graph. If exactly one operand is concrete, its value is
    /// folded into the result as the accumulator and the result is registered
    /// as a child of the unresolved operand. If neither is concrete, the
    /// result carries no accumulator and is registered as a child of both
    /// operands, so that it is visited from whichever operand resolves.
    pub(crate) fn combine(nodes: &mut Vec<Node>, a: usize, b: usize, op: OpKind) -> (r: usize)
        requires
            a < old(nodes)@.len(),
            b < old(nodes)@.len(),
        ensures
            combine_post(old(nodes)@, final(nodes)@, op, a, b, r),
    {
        let r = nodes.len();
        let va = nodes[a].value;
        let vb = nodes[b].value;
        match (va, vb) {
            (CustomU64::Val(x), CustomU64::Val(y)) => {
                let v = match op {
                    OpKind::Add => x.wrapping_add(y),
                    OpKind::Mul => x.wrapping_mul(y),
                };
                nodes.push(Node { value: CustomU64::Val(v), children: Vec::new() });
            },
            (CustomU64::Val(x), CustomU64::Expr(_)) => {
                let value = make_pending(op, Some(x));
                nodes.push(Node { value, children: Vec::new() });
                push_child(nodes, b, r);
            },
            (CustomU64::Expr(_), CustomU64::Val(y)) => {
                let value = make_pending(op, Some(y));
                nodes.push(Node { value, children: Vec::new() });
                push_child(nodes, a, r);
            },
            (CustomU64::Expr(_), CustomU64::Expr(_)) => {
                let value = make_pending(op, None);
                nodes.push(Node { value, children: Vec::new() });
                push_child(nodes, a, r);
                push_child(nodes, b, r);
            },
        }
        r
    }

    /// Processes the children of node `k`, whose value has become the concrete
    /// `v`: a child that already carries an accumulator resolves to the
    /// operation applied to the accumulator and `v`; a child with no
    /// accumulator folds `v` in and completes when its other unresolved
    /// operand is processed in turn. The sweep in `fill_nodes` visits nodes in
    /// creation order, so every child is reached exactly once per unresolved
    /// operand and no node is touched after it becomes concrete.
    pub(crate) fn evaluate_children(
        nodes: &mut Vec<Node>,
        k: usize,
        v: u64,
        Ghost(origins): Ghost<Seq<Origin>>,
        Ghost(nodes0): Ghost<Seq<Node>>,
        Ghost(inputs): Ghost<Seq<usize>>,
        Ghost(vals): Ghost<Seq<u64>>,
    ) -> (r: Result<(), FillError>)
        requires
            k < old(nodes)@.len(),
            fill_ctx(origins, nodes0, inputs, vals) ==> {
                &&& fill_inv(origins, nodes0, vals, old(nodes)@, k as int, 0)
                &&& old(nodes)@[k as int].value == CustomU64::Val(v)
                &&& v == denote(origins, vals, k as int)
            },
        ensures
            final(nodes)@.len() == old(nodes)@.len(),
            forall|j: int|
                0 <= j < final(nodes)@.len() ==> (#[trigger] final(nodes)@[j]).children@ == old(
                    nodes,
                )@[j].children@,
            r != Err::<(), FillError>(FillError::WrongInputCount),
            fill_ctx(origins, nodes0, inputs, vals) ==> r == Ok::<(), FillError>(()) && fill_inv(
                origins,
                nodes0,
                vals,
                final(nodes)@,
                k as int + 1,
                0,
            ),
    {
        let ghost ctx = fill_ctx(origins, nodes0, inputs, vals);
        let num = nodes[k].children.len();
        let mut t: usize = 0;
        while t < num
            invariant
                t <= num,
                k < nodes@.len(),
                nodes@.len() == old(nodes)@.len(),
                num == nodes@[k as int].children@.len(),
                forall|j: int|
                    0 <= j < nodes@.len() ==> (#[trigger] nodes@[j]).children@ == old(
                        nodes,
                    )@[j].children@,
                ctx == fill_ctx(origins, nodes0, inputs, vals),
                ctx ==> {
                    &&& fill_inv(origins, nodes0, vals, nodes@, k as int, t as int)
                    &&& nodes@[k as int].value == CustomU64::Val(v)
                    &&& v == denote(origins, vals, k as int)
                },
            decreases num - t,
        {
            let c = nodes[k].children[t];
            proof {
                if ctx {
                    lemma_edge_target(origins, nodes0, inputs, vals, nodes@, k as int, t as int);
                }
            }
            if c >= nodes.len() {
                return Err(FillError::UnexpectedNodeState);
            }
            let ghost pre = nodes@;
            let cur_val = nodes[c].value;
            match cur_val {
                CustomU64::Expr(ExprVal::Add(Some(x))) => {
                    nodes[c].value = CustomU64::Val(x.wrapping_add(v));
                },
                CustomU64::Expr(ExprVal::Mul(Some(x))) => {
                    nodes[c].value = CustomU64::Val(x.wrapping_mul(v));
                },
                CustomU64::Expr(ExprVal::Add(None)) => {
                    nodes[c].value = CustomU64::Expr(ExprVal::Add(Some(v)));
                },
                CustomU64::Expr(ExprVal::Mul(None)) => {
                    nodes[c].value = CustomU64::Expr(ExprVal::Mul(Some(v)));
                },
                _ => {
                    return Err(FillError::UnexpectedNodeState);
                },
            }
            proof {
                if ctx {
                    assert(nodes@[c as int].value == resolve_step(pre[c as int].value, v));
                    lemma_process_edge(
                        origins,
                        nodes0,
                        inputs,
                        vals,
                        pre,
                        nodes@,
                        k as int,
                        t as int,
                        v,
                    );
                }
            }
            t = t + 1;
        }
        proof {
            if ctx {
                lemma_sweep_advance(origins, nodes0, inputs, vals, nodes@, k as int);
            }
        }
        Ok(())
    }
}

} // verus!
