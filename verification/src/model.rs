//! The mathematical model of a circuit.
//!
//! Each node of the arena is described by an [`Origin`]: a declared input, a
//! declared constant, or an operation over two earlier nodes. [`denote`] gives
//! the value a node must take once input values are supplied — the direct
//! arithmetic evaluation of the expression the node was built from.
//! [`graph_wf`] captures the shape the construction protocol guarantees, in
//! particular the exact multiplicity of every child edge, and [`fill_inv`] is
//! the invariant of the resolution sweep.

use crate::enums::{
    concrete_of, is_concrete, lemma_op_apply_commutes, op_apply, CustomU64, ExprVal, OpKind,
};
use crate::node::{pending_value, Node};
use vstd::prelude::*;

verus! {

/// How a node came to exist: declared as the input at a given position,
/// declared as a constant, or produced by an operation over two earlier nodes
/// (identified by their arena indices).
pub enum Origin {
    Input(int),
    Const(u64),
    Oper(OpKind, int, int),
}

/// The value node `i` represents once the declared inputs take the values
/// `vals`: direct evaluation of the polynomial expression the node was built
/// from, wrapping at the 64-bit boundary.
pub open spec fn denote(origins: Seq<Origin>, vals: Seq<u64>, i: int) -> u64
    decreases i,
{
    if 0 <= i < origins.len() {
        match origins[i] {
            Origin::Input(p) => if 0 <= p < vals.len() {
                vals[p]
            } else {
                0
            },
            Origin::Const(v) => v,
            Origin::Oper(op, a, b) => if 0 <= a < i && 0 <= b < i {
                op_apply(op, denote(origins, vals, a), denote(origins, vals, b))
            } else {
                0
            },
        }
    } else {
        0
    }
}

/// Number of occurrences of `x` among the elements of `s`.
pub open spec fn count_of(s: Seq<usize>, x: int) -> nat
    decreases s.len(),
{
    if s.len() == 0 {
        0
    } else {
        count_of(s.drop_last(), x) + if s.last() as int == x {
            1nat
        } else {
            0nat
        }
    }
}

proof fn lemma_count_push(s: Seq<usize>, y: usize, x: int)
    ensures
        count_of(s.push(y), x) == count_of(s, x) + if y as int == x {
            1nat
        } else {
            0nat
        },
{
    assert(s.push(y).drop_last() =~= s);
    assert(s.push(y).last() == y);
}

proof fn lemma_count_empty(s: Seq<usize>, x: int)
    requires
        s.len() == 0,
    ensures
        count_of(s, x) == 0,
{
}

proof fn lemma_count_take_succ(s: Seq<usize>, t: int, x: int)
    requires
        0 <= t < s.len(),
    ensures
        count_of(s.take(t + 1), x) == count_of(s.take(t), x) + if s[t] as int == x {
            1nat
        } else {
            0nat
        },
{
    assert(s.take(t + 1) =~= s.take(t).push(s[t]));
    lemma_count_push(s.take(t), s[t], x);
}

proof fn lemma_count_take_full(s: Seq<usize>, x: int)
    ensures
        count_of(s.take(s.len() as int), x) == count_of(s, x),
{
    assert(s.take(s.len() as int) =~= s);
}

proof fn lemma_count_take_le(s: Seq<usize>, t: int, x: int)
    requires
        0 <= t <= s.len(),
    ensures
        count_of(s.take(t), x) <= count_of(s, x),
    decreases s.len() - t,
{
    if t == s.len() {
        lemma_count_take_full(s, x);
    } else {
        lemma_count_take_succ(s, t, x);
        lemma_count_take_le(s, t + 1, x);
    }
}

/// True when `v` is the half-resolved pending form of `op`: the operation with
/// one operand's value already folded in as the accumulator.
pub open spec fn is_half_pending(v: CustomU64, op: OpKind) -> bool {
    match (op, v) {
        (OpKind::Add, CustomU64::Expr(ExprVal::Add(Some(_)))) => true,
        (OpKind::Mul, CustomU64::Expr(ExprVal::Mul(Some(_)))) => true,
        _ => false,
    }
}

/// Of the two operands of a half-resolved node, the one that was still
/// unresolved when the node was created.
pub open spec fn pending_parent(nodes: Seq<Node>, a: int, b: int) -> int {
    if !is_concrete(nodes[a].value) {
        a
    } else {
        b
    }
}

/// The state an operation node is left in by the merge protocol, relative to
/// the current state of its operands: concrete if both operands were concrete,
/// half-pending with the concrete operand's value folded in if exactly one
/// was, and fully pending otherwise.
pub open spec fn oper_build_state(nodes: Seq<Node>, j: int, op: OpKind, a: int, b: int) -> bool {
    let va = nodes[a].value;
    let vb = nodes[b].value;
    let vj = nodes[j].value;
    ||| (is_concrete(va) && is_concrete(vb) && vj == CustomU64::Val(
        op_apply(op, concrete_of(va), concrete_of(vb)),
    ))
    ||| (is_concrete(va) && !is_concrete(vb) && vj == pending_value(op, Some(concrete_of(va))))
    ||| (!is_concrete(va) && is_concrete(vb) && vj == pending_value(op, Some(concrete_of(vb))))
    ||| (!is_concrete(va) && !is_concrete(vb) && vj == pending_value(op, None))
}

/// The build-time state of node `j`, by its origin.
pub open spec fn node_build_state(
    origins: Seq<Origin>,
    nodes: Seq<Node>,
    inputs: Seq<usize>,
    j: int,
) -> bool {
    match origins[j] {
        Origin::Input(p) => {
            &&& nodes[j].value == CustomU64::Expr(ExprVal::Input)
            &&& 0 <= p < inputs.len()
            &&& inputs[p] as int == j
        },
        Origin::Const(v) => nodes[j].value == CustomU64::Val(v),
        Origin::Oper(op, a, b) => {
            &&& 0 <= a < j
            &&& 0 <= b < j
            &&& oper_build_state(nodes, j, op, a, b)
        },
    }
}

/// How many times node `c` must occur in the child list of node `u`: once from
/// its one unresolved operand if it is half-pending, once from each operand
/// (twice if they coincide) if it is fully pending, and not at all otherwise.
pub open spec fn expected_edges(origins: Seq<Origin>, nodes: Seq<Node>, u: int, c: int) -> nat {
    if 0 <= c < origins.len() && 0 <= c < nodes.len() {
        match origins[c] {
            Origin::Oper(op, a, b) => {
                if nodes[c].value == pending_value(op, None) {
                    if a == b {
                        if u == a {
                            2nat
                        } else {
                            0nat
                        }
                    } else if u == a || u == b {
                        1nat
                    } else {
                        0nat
                    }
                } else if is_half_pending(nodes[c].value, op) {
                    if u == pending_parent(nodes, a, b) {
                        1nat
                    } else {
                        0nat
                    }
                } else {
                    0nat
                }
            },
            _ => 0nat,
        }
    } else {
        0nat
    }
}

/// Well-formedness of the graph as the construction protocol leaves it before
/// any fill: origins and nodes correspond, declared inputs point at input
/// nodes, every node is in its build-time state, and every child edge has
/// exactly the multiplicity the merge protocol created.
pub open spec fn graph_wf(origins: Seq<Origin>, nodes: Seq<Node>, inputs: Seq<usize>) -> bool {
    &&& origins.len() == nodes.len()
    &&& forall|p: int|
        0 <= p < inputs.len() ==> (#[trigger] inputs[p]) < nodes.len() && origins[inputs[p] as int]
            == Origin::Input(p)
    &&& forall|j: int|
        0 <= j < nodes.len() ==> #[trigger] node_build_state(origins, nodes, inputs, j)
    &&& forall|u: int, c: int|
        0 <= u < nodes.len() ==> #[trigger] count_of(nodes[u].children@, c) == expected_edges(
            origins,
            nodes,
            u,
            c,
        )
}

/// The context of a fill: a well-formed graph and one supplied value per
/// declared input.
pub open spec fn fill_ctx(
    origins: Seq<Origin>,
    nodes0: Seq<Node>,
    inputs: Seq<usize>,
    vals: Seq<u64>,
) -> bool {
    &&& graph_wf(origins, nodes0, inputs)
    &&& vals.len() == inputs.len()
}

/// How many of the edges from node `u` into node `c` the resolution sweep has
/// already processed, when it stands at node `k`, child position `t`: all
/// edges of nodes before `k`, and the first `t` edges of node `k`.
pub open spec fn edges_done(nodes0: Seq<Node>, k: int, t: int, u: int, c: int) -> nat {
    if 0 <= u < nodes0.len() {
        if u < k {
            count_of(nodes0[u].children@, c)
        } else if u == k {
            count_of(nodes0[u].children@.take(t), c)
        } else {
            0nat
        }
    } else {
        0nat
    }
}

/// The mid-fill state of an operation node `j` with pre-fill state
/// `nodes0[j]`: each processed edge folds one resolved operand in, and once
/// every edge is processed the node holds exactly its denotation.
pub open spec fn oper_fill_state(
    origins: Seq<Origin>,
    nodes0: Seq<Node>,
    vals: Seq<u64>,
    cur: Seq<Node>,
    k: int,
    t: int,
    j: int,
    op: OpKind,
    a: int,
    b: int,
) -> bool {
    if is_concrete(nodes0[j].value) {
        cur[j].value == CustomU64::Val(denote(origins, vals, j))
    } else if is_half_pending(nodes0[j].value, op) {
        let p = pending_parent(nodes0, a, b);
        let d = edges_done(nodes0, k, t, p, j);
        &&& d <= 1
        &&& (d == 0 ==> cur[j].value == nodes0[j].value)
        &&& (d == 1 ==> cur[j].value == CustomU64::Val(denote(origins, vals, j)))
    } else {
        if a == b {
            let d = edges_done(nodes0, k, t, a, j);
            &&& d <= 2
            &&& (d == 0 ==> cur[j].value == nodes0[j].value)
            &&& (d == 1 ==> cur[j].value == pending_value(op, Some(denote(origins, vals, a))))
            &&& (d == 2 ==> cur[j].value == CustomU64::Val(denote(origins, vals, j)))
        } else {
            let da = edges_done(nodes0, k, t, a, j);
            let db = edges_done(nodes0, k, t, b, j);
            &&& da <= 1
            &&& db <= 1
            &&& (da == 0 && db == 0 ==> cur[j].value == nodes0[j].value)
            &&& (da == 1 && db == 0 ==> cur[j].value == pending_value(
                op,
                Some(denote(origins, vals, a)),
            ))
            &&& (da == 0 && db == 1 ==> cur[j].value == pending_value(
                op,
                Some(denote(origins, vals, b)),
            ))
            &&& (da == 1 && db == 1 ==> cur[j].value == CustomU64::Val(denote(origins, vals, j)))
        }
    }
}

/// The mid-fill state of node `j`: inputs and constants are concrete with
/// their denotation, operation nodes advance as their edges are processed.
pub open spec fn node_fill_state(
    origins: Seq<Origin>,
    nodes0: Seq<Node>,
    vals: Seq<u64>,
    cur: Seq<Node>,
    k: int,
    t: int,
    j: int,
) -> bool {
    match origins[j] {
        Origin::Input(_) => cur[j].value == CustomU64::Val(denote(origins, vals, j)),
        Origin::Const(_) => cur[j].value == CustomU64::Val(denote(origins, vals, j)),
        Origin::Oper(op, a, b) => oper_fill_state(
            origins,
            nodes0,
            vals,
            cur,
            k,
            t,
            j,
            op,
            a,
            b,
        ),
    }
}

/// Invariant of the resolution sweep at node `k`, child position `t`.
pub open spec fn fill_inv(
    origins: Seq<Origin>,
    nodes0: Seq<Node>,
    vals: Seq<u64>,
    cur: Seq<Node>,
    k: int,
    t: int,
) -> bool {
    &&& cur.len() == nodes0.len()
    &&& forall|j: int|
        0 <= j < cur.len() ==> (#[trigger] cur[j]).children@ == nodes0[j].children@
    &&& forall|j: int|
        0 <= j < cur.len() ==> #[trigger] node_fill_state(origins, nodes0, vals, cur, k, t, j)
}

/// A node that is concrete before the fill denotes exactly the value it
/// holds, whatever the inputs turn out to be.
proof fn lemma_denote_concrete(
    origins: Seq<Origin>,
    nodes0: Seq<Node>,
    inputs: Seq<usize>,
    vals: Seq<u64>,
    j: int,
)
    requires
        graph_wf(origins, nodes0, inputs),
        0 <= j < nodes0.len(),
        is_concrete(nodes0[j].value),
    ensures
        denote(origins, vals, j) == concrete_of(nodes0[j].value),
    decreases j,
{
    assert(node_build_state(origins, nodes0, inputs, j));
    match origins[j] {
        Origin::Input(_) => {},
        Origin::Const(_) => {},
        Origin::Oper(op, a, b) => {
            lemma_denote_concrete(origins, nodes0, inputs, vals, a);
            lemma_denote_concrete(origins, nodes0, inputs, vals, b);
        },
    }
}


/// A node index outside the arena expects no edges: every parent of an
/// operation node is one of its operands, which lie inside the arena.
proof fn lemma_expected_edges_oob(
    origins: Seq<Origin>,
    nodes0: Seq<Node>,
    inputs: Seq<usize>,
    u: int,
    c: int,
)
    requires
        graph_wf(origins, nodes0, inputs),
        u < 0 || u >= nodes0.len(),
    ensures
        expected_edges(origins, nodes0, u, c) == 0,
{
    if 0 <= c < nodes0.len() && 0 <= c < origins.len() {
        assert(node_build_state(origins, nodes0, inputs, c));
    }
}

/// Appending a leaf node (a declared input or constant) with an empty child
/// list preserves graph well-formedness.
pub(crate) proof fn lemma_append_leaf_wf(
    origins: Seq<Origin>,
    nodes0: Seq<Node>,
    inputs0: Seq<usize>,
    nodes1: Seq<Node>,
    inputs1: Seq<usize>,
    o: Origin,
)
    requires
        graph_wf(origins, nodes0, inputs0),
        nodes1.len() == nodes0.len() + 1,
        forall|j: int|
            0 <= j < nodes0.len() ==> (#[trigger] nodes1[j]).value == nodes0[j].value
                && nodes1[j].children@ == nodes0[j].children@,
        nodes1[nodes0.len() as int].children@ == Seq::<usize>::empty(),
        match o {
            Origin::Input(q) => {
                &&& q == inputs0.len()
                &&& inputs1 == inputs0.push(nodes0.len() as usize)
                &&& nodes0.len() <= usize::MAX
                &&& nodes1[nodes0.len() as int].value == CustomU64::Expr(ExprVal::Input)
            },
            Origin::Const(v) => {
                &&& inputs1 == inputs0
                &&& nodes1[nodes0.len() as int].value == CustomU64::Val(v)
            },
            Origin::Oper(_, _, _) => false,
        },
    ensures
        graph_wf(origins.push(o), nodes1, inputs1),
{
    let origins1 = origins.push(o);
    let n = nodes0.len() as int;
    assert forall|p: int| 0 <= p < inputs1.len() implies (#[trigger] inputs1[p]) < nodes1.len()
        && origins1[inputs1[p] as int] == Origin::Input(p) by {
        if p < inputs0.len() {
            assert(inputs0[p] < nodes0.len());
        }
    }
    assert forall|j: int| 0 <= j < nodes1.len() implies #[trigger] node_build_state(
        origins1,
        nodes1,
        inputs1,
        j,
    ) by {
        if j < n {
            assert(node_build_state(origins, nodes0, inputs0, j));
            match origins[j] {
                Origin::Oper(op2, a2, b2) => {
                    assert(nodes1[a2].value == nodes0[a2].value);
                    assert(nodes1[b2].value == nodes0[b2].value);
                },
                _ => {},
            }
        }
    }
    assert forall|u: int, c: int| 0 <= u < nodes1.len() implies #[trigger] count_of(
        nodes1[u].children@,
        c,
    ) == expected_edges(origins1, nodes1, u, c) by {
        lemma_expected_edges_frame(origins, nodes0, inputs0, origins1, nodes1, u, c);
        if u < n {
            assert(count_of(nodes0[u].children@, c) == expected_edges(origins, nodes0, u, c));
            assert(nodes1[u].children@ == nodes0[u].children@);
        } else {
            lemma_expected_edges_oob(origins, nodes0, inputs0, u, c);
            assert(count_of(nodes1[u].children@, c) == 0);
        }
    }
}

/// For a target `c` that is not the appended node, the expected edge
/// multiplicity is unchanged by appending a node; for the appended node it is
/// zero unless the new origin is an operation. This frame lemma covers leaf
/// appends, where the new node can expect no edges at all.
proof fn lemma_expected_edges_frame(
    origins: Seq<Origin>,
    nodes0: Seq<Node>,
    inputs0: Seq<usize>,
    origins1: Seq<Origin>,
    nodes1: Seq<Node>,
    u: int,
    c: int,
)
    requires
        graph_wf(origins, nodes0, inputs0),
        origins1.len() == origins.len() + 1,
        forall|j: int| 0 <= j < origins.len() ==> origins1[j] == origins[j],
        nodes1.len() == nodes0.len() + 1,
        forall|j: int|
            0 <= j < nodes0.len() ==> (#[trigger] nodes1[j]).value == nodes0[j].value,
        !(origins1[nodes0.len() as int] matches Origin::Oper(_, _, _)),
    ensures
        expected_edges(origins1, nodes1, u, c) == if c == nodes0.len() as int {
            0nat
        } else {
            expected_edges(origins, nodes0, u, c)
        },
{
    let n = nodes0.len() as int;
    if 0 <= c < n {
        assert(node_build_state(origins, nodes0, inputs0, c));
        match origins[c] {
            Origin::Oper(op2, a2, b2) => {
                assert(nodes1[c].value == nodes0[c].value);
                assert(nodes1[a2].value == nodes0[a2].value);
                assert(nodes1[b2].value == nodes0[b2].value);
            },
            _ => {},
        }
    }
}

/// Combining two operand nodes preserves graph well-formedness: the appended
/// result node is in its build-time state and carries exactly the new edges
/// the merge protocol created.
pub(crate) proof fn lemma_combine_preserves_wf(
    origins: Seq<Origin>,
    nodes0: Seq<Node>,
    inputs: Seq<usize>,
    nodes1: Seq<Node>,
    op: OpKind,
    a: usize,
    b: usize,
    r: usize,
)
    requires
        graph_wf(origins, nodes0, inputs),
        a < nodes0.len(),
        b < nodes0.len(),
        crate::node::combine_post(nodes0, nodes1, op, a, b, r),
    ensures
        graph_wf(origins.push(Origin::Oper(op, a as int, b as int)), nodes1, inputs),
{
    let o = Origin::Oper(op, a as int, b as int);
    let origins1 = origins.push(o);
    let n = nodes0.len() as int;
    let va = nodes0[a as int].value;
    let vb = nodes0[b as int].value;
    assert(nodes1[a as int].value == va);
    assert(nodes1[b as int].value == vb);
    assert forall|p: int| 0 <= p < inputs.len() implies (#[trigger] inputs[p]) < nodes1.len()
        && origins1[inputs[p] as int] == Origin::Input(p) by {
        assert(inputs[p] < nodes0.len());
    }
    assert forall|j: int| 0 <= j < nodes1.len() implies #[trigger] node_build_state(
        origins1,
        nodes1,
        inputs,
        j,
    ) by {
        if j < n {
            assert(node_build_state(origins, nodes0, inputs, j));
            match origins[j] {
                Origin::Oper(op2, a2, b2) => {
                    assert(nodes1[a2].value == nodes0[a2].value);
                    assert(nodes1[b2].value == nodes0[b2].value);
                },
                _ => {},
            }
        } else {
            assert(oper_build_state(nodes1, n, op, a as int, b as int));
        }
    }
    assert forall|u: int, c: int| 0 <= u < nodes1.len() implies #[trigger] count_of(
        nodes1[u].children@,
        c,
    ) == expected_edges(origins1, nodes1, u, c) by {
        lemma_combine_expected_edges(origins, nodes0, inputs, origins1, nodes1, op, a, b, r, u, c);
        if u < n {
            assert(count_of(nodes0[u].children@, c) == expected_edges(origins, nodes0, u, c));
            if is_concrete(va) && is_concrete(vb) {
                assert(nodes1[u].children@ == nodes0[u].children@);
            } else if is_concrete(va) {
                if u == b as int {
                    lemma_count_push(nodes0[u].children@, r, c);
                } else {
                    assert(nodes1[u].children@ == nodes0[u].children@);
                }
            } else if is_concrete(vb) {
                if u == a as int {
                    lemma_count_push(nodes0[u].children@, r, c);
                } else {
                    assert(nodes1[u].children@ == nodes0[u].children@);
                }
            } else if a == b {
                if u == a as int {
                    lemma_count_push(nodes0[u].children@, r, c);
                    lemma_count_push(nodes0[u].children@.push(r), r, c);
                } else {
                    assert(nodes1[u].children@ == nodes0[u].children@);
                }
            } else {
                if u == a as int || u == b as int {
                    lemma_count_push(nodes0[u].children@, r, c);
                } else {
                    assert(nodes1[u].children@ == nodes0[u].children@);
                }
            }
        } else {
            lemma_expected_edges_oob(origins, nodes0, inputs, u, c);
            assert(count_of(nodes1[u].children@, c) == 0);
        }
    }
}

/// The expected edge multiplicities after a combine: edges into old nodes are
/// unchanged, and the new node expects edges exactly from its unresolved
/// operands.
proof fn lemma_combine_expected_edges(
    origins: Seq<Origin>,
    nodes0: Seq<Node>,
    inputs: Seq<usize>,
    origins1: Seq<Origin>,
    nodes1: Seq<Node>,
    op: OpKind,
    a: usize,
    b: usize,
    r: usize,
    u: int,
    c: int,
)
    requires
        graph_wf(origins, nodes0, inputs),
        a < nodes0.len(),
        b < nodes0.len(),
        crate::node::combine_post(nodes0, nodes1, op, a, b, r),
        origins1 == origins.push(Origin::Oper(op, a as int, b as int)),
    ensures
        c != r as int ==> expected_edges(origins1, nodes1, u, c) == expected_edges(
            origins,
            nodes0,
            u,
            c,
        ),
        c == r as int ==> expected_edges(origins1, nodes1, u, c) == {
            let va = nodes0[a as int].value;
            let vb = nodes0[b as int].value;
            if is_concrete(va) && is_concrete(vb) {
                0nat
            } else if is_concrete(va) {
                if u == b as int {
                    1nat
                } else {
                    0nat
                }
            } else if is_concrete(vb) {
                if u == a as int {
                    1nat
                } else {
                    0nat
                }
            } else if a == b {
                if u == a as int {
                    2nat
                } else {
                    0nat
                }
            } else {
                if u == a as int || u == b as int {
                    1nat
                } else {
                    0nat
                }
            }
        },
{
    let n = nodes0.len() as int;
    let va = nodes0[a as int].value;
    let vb = nodes0[b as int].value;
    assert(nodes1[a as int].value == va);
    assert(nodes1[b as int].value == vb);
    if c != r as int {
        if 0 <= c < n {
            assert(node_build_state(origins, nodes0, inputs, c));
            match origins[c] {
                Origin::Oper(op2, a2, b2) => {
                    assert(nodes1[c].value == nodes0[c].value);
                    assert(nodes1[a2].value == nodes0[a2].value);
                    assert(nodes1[b2].value == nodes0[b2].value);
                },
                _ => {},
            }
        }
    }
}


/// The one-step transition a child's value makes when a parent holding the
/// concrete value `v` is processed: an accumulator completes the operation, a
/// missing accumulator is seeded with `v`.
pub open spec fn resolve_step(cur: CustomU64, v: u64) -> CustomU64 {
    match cur {
        CustomU64::Expr(ExprVal::Add(Some(x))) => CustomU64::Val(op_apply(OpKind::Add, x, v)),
        CustomU64::Expr(ExprVal::Mul(Some(x))) => CustomU64::Val(op_apply(OpKind::Mul, x, v)),
        CustomU64::Expr(ExprVal::Add(None)) => CustomU64::Expr(ExprVal::Add(Some(v))),
        CustomU64::Expr(ExprVal::Mul(None)) => CustomU64::Expr(ExprVal::Mul(Some(v))),
        _ => cur,
    }
}

/// State of node `j` while the first `p` input values are being assigned:
/// assigned inputs hold their supplied value, everything else is untouched.
pub open spec fn assign_state(
    origins: Seq<Origin>,
    nodes0: Seq<Node>,
    vals: Seq<u64>,
    cur: Seq<Node>,
    p: int,
    j: int,
) -> bool {
    match origins[j] {
        Origin::Input(q) => if 0 <= q < p {
            cur[j].value == CustomU64::Val(denote(origins, vals, j))
        } else {
            cur[j].value == nodes0[j].value
        },
        _ => cur[j].value == nodes0[j].value,
    }
}

/// Once every input value is assigned, the sweep invariant holds at its
/// starting position: nothing has been processed yet.
pub(crate) proof fn lemma_fill_inv_init(
    origins: Seq<Origin>,
    nodes0: Seq<Node>,
    inputs: Seq<usize>,
    vals: Seq<u64>,
    cur: Seq<Node>,
)
    requires
        fill_ctx(origins, nodes0, inputs, vals),
        cur.len() == nodes0.len(),
        forall|j: int| 0 <= j < cur.len() ==> (#[trigger] cur[j]).children@ == nodes0[j].children@,
        forall|j: int|
            0 <= j < cur.len() ==> #[trigger] assign_state(
                origins,
                nodes0,
                vals,
                cur,
                inputs.len() as int,
                j,
            ),
    ensures
        fill_inv(origins, nodes0, vals, cur, 0, 0),
{
    assert forall|j: int| 0 <= j < cur.len() implies #[trigger] node_fill_state(
        origins,
        nodes0,
        vals,
        cur,
        0,
        0,
        j,
    ) by {
        assert(node_build_state(origins, nodes0, inputs, j));
        assert(assign_state(origins, nodes0, vals, cur, inputs.len() as int, j));
        match origins[j] {
            Origin::Input(_) => {},
            Origin::Const(_) => {},
            Origin::Oper(op, a, b) => {
                if is_concrete(nodes0[j].value) {
                    lemma_denote_concrete(origins, nodes0, inputs, vals, j);
                } else {
                    lemma_edges_done_zero(nodes0, a, j);
                    lemma_edges_done_zero(nodes0, b, j);
                    lemma_edges_done_zero(nodes0, pending_parent(nodes0, a, b), j);
                }
            },
        }
    }
}

/// At the start of the sweep no edge has been processed.
proof fn lemma_edges_done_zero(nodes0: Seq<Node>, u: int, c: int)
    ensures
        edges_done(nodes0, 0, 0, u, c) == 0,
{
    if 0 <= u < nodes0.len() {
        if u == 0 {
            lemma_count_empty(nodes0[u].children@.take(0), c);
        }
    }
}

/// Every node up to the sweep position is already concrete, holding exactly
/// its denotation: all edges of earlier nodes are processed, and a node's
/// operands lie strictly before it.
pub(crate) proof fn lemma_resolved_below(
    origins: Seq<Origin>,
    nodes0: Seq<Node>,
    inputs: Seq<usize>,
    vals: Seq<u64>,
    cur: Seq<Node>,
    k: int,
    j: int,
)
    requires
        fill_ctx(origins, nodes0, inputs, vals),
        fill_inv(origins, nodes0, vals, cur, k, 0),
        0 <= j < nodes0.len(),
        j <= k,
    ensures
        cur[j].value == CustomU64::Val(denote(origins, vals, j)),
{
    assert(node_fill_state(origins, nodes0, vals, cur, k, 0, j));
    assert(node_build_state(origins, nodes0, inputs, j));
    match origins[j] {
        Origin::Input(_) => {},
        Origin::Const(_) => {},
        Origin::Oper(op, a, b) => {
            if is_concrete(nodes0[j].value) {
            } else if is_half_pending(nodes0[j].value, op) {
                let p = pending_parent(nodes0, a, b);
                assert(count_of(nodes0[p].children@, j) == expected_edges(origins, nodes0, p, j));
                assert(edges_done(nodes0, k, 0, p, j) == 1);
            } else {
                assert(nodes0[j].value == pending_value(op, None));
                assert(count_of(nodes0[a].children@, j) == expected_edges(origins, nodes0, a, j));
                assert(count_of(nodes0[b].children@, j) == expected_edges(origins, nodes0, b, j));
                if a == b {
                    assert(edges_done(nodes0, k, 0, a, j) == 2);
                } else {
                    assert(edges_done(nodes0, k, 0, a, j) == 1);
                    assert(edges_done(nodes0, k, 0, b, j) == 1);
                }
            }
        },
    }
}

/// The child the sweep is about to process is an operation node strictly
/// after the current position, and it is still pending: the edge about to be
/// processed is unprocessed, so the child cannot have resolved yet.
pub(crate) proof fn lemma_edge_target(
    origins: Seq<Origin>,
    nodes0: Seq<Node>,
    inputs: Seq<usize>,
    vals: Seq<u64>,
    cur: Seq<Node>,
    k: int,
    t: int,
)
    requires
        fill_ctx(origins, nodes0, inputs, vals),
        fill_inv(origins, nodes0, vals, cur, k, t),
        0 <= k < nodes0.len(),
        0 <= t < nodes0[k].children@.len(),
    ensures
        ({
            let c = nodes0[k].children@[t] as int;
            &&& 0 <= c < nodes0.len()
            &&& k < c
            &&& origins[c] matches Origin::Oper(_, _, _)
            &&& !is_concrete(cur[c].value)
            &&& cur[c].value != CustomU64::Expr(ExprVal::Input)
        }),
{
    let s = nodes0[k].children@;
    let c = s[t] as int;
    lemma_count_take_succ(s, t, c);
    lemma_count_take_le(s, t + 1, c);
    assert(count_of(s, c) == expected_edges(origins, nodes0, k, c));
    assert(expected_edges(origins, nodes0, k, c) >= 1);
    assert(0 <= c < nodes0.len());
    assert(node_build_state(origins, nodes0, inputs, c));
    assert(node_fill_state(origins, nodes0, vals, cur, k, t, c));
    match origins[c] {
        Origin::Oper(op, a, b) => {
            if is_half_pending(nodes0[c].value, op) {
                let p = pending_parent(nodes0, a, b);
                assert(k == p);
                assert(count_of(s, c) == 1);
                assert(edges_done(nodes0, k, t, p, c) == count_of(s.take(t), c));
                assert(count_of(s.take(t), c) + 1 <= 1);
                assert(edges_done(nodes0, k, t, p, c) == 0);
                assert(cur[c].value == nodes0[c].value);
            } else {
                assert(nodes0[c].value == pending_value(op, None));
                if a == b {
                    assert(k == a);
                    assert(count_of(s, c) == 2);
                    assert(edges_done(nodes0, k, t, a, c) <= 1);
                } else {
                    assert(k == a || k == b);
                    assert(count_of(s, c) == 1);
                    assert(count_of(s.take(t), c) == 0);
                }
            }
        },
        _ => {},
    }
}

/// Processing one edge preserves the sweep invariant, advancing the child
/// position by one: the written value is exactly what the invariant demands
/// of the child with one more processed edge.
pub(crate) proof fn lemma_process_edge(
    origins: Seq<Origin>,
    nodes0: Seq<Node>,
    inputs: Seq<usize>,
    vals: Seq<u64>,
    cur: Seq<Node>,
    post: Seq<Node>,
    k: int,
    t: int,
    v: u64,
)
    requires
        fill_ctx(origins, nodes0, inputs, vals),
        fill_inv(origins, nodes0, vals, cur, k, t),
        0 <= k < nodes0.len(),
        0 <= t < nodes0[k].children@.len(),
        cur[k].value == CustomU64::Val(v),
        v == denote(origins, vals, k),
        post.len() == cur.len(),
        ({
            let c = nodes0[k].children@[t] as int;
            &&& post[c].value == resolve_step(cur[c].value, v)
            &&& post[c].children@ == cur[c].children@
            &&& forall|j: int|
                0 <= j < cur.len() && j != c ==> (#[trigger] post[j]).value == cur[j].value
                    && post[j].children@ == cur[j].children@
        }),
    ensures
        fill_inv(origins, nodes0, vals, post, k, t + 1),
{
    let s = nodes0[k].children@;
    let c = s[t] as int;
    lemma_edge_target(origins, nodes0, inputs, vals, cur, k, t);
    lemma_count_take_succ(s, t, c);
    lemma_count_take_le(s, t + 1, c);
    assert forall|u: int, c2: int| c2 != c implies edges_done(nodes0, k, t + 1, u, c2)
        == edges_done(nodes0, k, t, u, c2) by {
        if u == k {
            lemma_count_take_succ(s, t, c2);
        }
    }
    assert(count_of(s, c) == expected_edges(origins, nodes0, k, c));
    assert(node_build_state(origins, nodes0, inputs, c));
    assert(node_fill_state(origins, nodes0, vals, cur, k, t, c));
    match origins[c] {
        Origin::Oper(op, a, b) => {
            assert(denote(origins, vals, c) == op_apply(
                op,
                denote(origins, vals, a),
                denote(origins, vals, b),
            ));
            if is_half_pending(nodes0[c].value, op) {
                let p = pending_parent(nodes0, a, b);
                assert(k == p);
                assert(edges_done(nodes0, k, t, p, c) == 0);
                assert(cur[c].value == nodes0[c].value);
                assert(edges_done(nodes0, k, t + 1, p, c) == 1);
                if p == b {
                    assert(is_concrete(nodes0[a].value));
                    assert(nodes0[c].value == pending_value(op, Some(concrete_of(nodes0[a].value))));
                    lemma_denote_concrete(origins, nodes0, inputs, vals, a);
                    assert(post[c].value == CustomU64::Val(
                        op_apply(op, denote(origins, vals, a), v),
                    ));
                } else {
                    assert(p == a);
                    assert(is_concrete(nodes0[b].value));
                    assert(nodes0[c].value == pending_value(op, Some(concrete_of(nodes0[b].value))));
                    lemma_denote_concrete(origins, nodes0, inputs, vals, b);
                    lemma_op_apply_commutes(op, concrete_of(nodes0[b].value), v);
                    assert(post[c].value == CustomU64::Val(
                        op_apply(op, v, denote(origins, vals, b)),
                    ));
                }
                assert(node_fill_state(origins, nodes0, vals, post, k, t + 1, c));
            } else {
                assert(nodes0[c].value == pending_value(op, None));
                if a == b {
                    assert(k == a);
                    let d = edges_done(nodes0, k, t, a, c);
                    assert(d == count_of(s.take(t), c));
                    assert(count_of(s, c) == 2);
                    assert(d <= 1);
                    assert(edges_done(nodes0, k, t + 1, a, c) == d + 1);
                    if d == 0 {
                        assert(cur[c].value == pending_value(op, None));
                        assert(post[c].value == pending_value(op, Some(v)));
                    } else {
                        assert(cur[c].value == pending_value(
                            op,
                            Some(denote(origins, vals, a)),
                        ));
                        assert(post[c].value == CustomU64::Val(
                            op_apply(op, denote(origins, vals, a), v),
                        ));
                    }
                    assert(node_fill_state(origins, nodes0, vals, post, k, t + 1, c));
                } else {
                    assert(k == a || k == b);
                    assert(count_of(s, c) == 1);
                    assert(count_of(s.take(t), c) == 0);
                    let o = if k == a {
                        b
                    } else {
                        a
                    };
                    assert(edges_done(nodes0, k, t, k, c) == 0);
                    assert(edges_done(nodes0, k, t + 1, k, c) == 1);
                    assert(edges_done(nodes0, k, t + 1, o, c) == edges_done(nodes0, k, t, o, c));
                    let don = edges_done(nodes0, k, t, o, c);
                    assert(don <= 1);
                    if don == 0 {
                        assert(cur[c].value == pending_value(op, None));
                        assert(post[c].value == pending_value(op, Some(v)));
                    } else {
                        assert(cur[c].value == pending_value(
                            op,
                            Some(denote(origins, vals, o)),
                        ));
                        if k == a {
                            lemma_op_apply_commutes(op, denote(origins, vals, o), v);
                        }
                        assert(post[c].value == CustomU64::Val(
                            op_apply(op, denote(origins, vals, o), v),
                        ));
                    }
                    assert(node_fill_state(origins, nodes0, vals, post, k, t + 1, c));
                }
            }
        },
        _ => {
            assert(false);
        },
    }
    assert forall|j: int| 0 <= j < post.len() implies #[trigger] node_fill_state(
        origins,
        nodes0,
        vals,
        post,
        k,
        t + 1,
        j,
    ) by {
        if j != c {
            assert(node_fill_state(origins, nodes0, vals, cur, k, t, j));
            assert(post[j].value == cur[j].value);
        }
    }
}

/// When the sweep finishes a node's child list, the invariant advances to the
/// next node at child position zero: the processed-edge counts coincide.
pub(crate) proof fn lemma_sweep_advance(
    origins: Seq<Origin>,
    nodes0: Seq<Node>,
    inputs: Seq<usize>,
    vals: Seq<u64>,
    cur: Seq<Node>,
    k: int,
)
    requires
        fill_ctx(origins, nodes0, inputs, vals),
        0 <= k < nodes0.len(),
        fill_inv(origins, nodes0, vals, cur, k, nodes0[k].children@.len() as int),
    ensures
        fill_inv(origins, nodes0, vals, cur, k + 1, 0),
{
    let len_k = nodes0[k].children@.len() as int;
    assert forall|u: int, c2: int|
        edges_done(nodes0, k + 1, 0, u, c2) == edges_done(nodes0, k, len_k, u, c2) by {
        if 0 <= u < nodes0.len() {
            if u == k {
                lemma_count_take_full(nodes0[u].children@, c2);
            } else if u == k + 1 {
                lemma_count_empty(nodes0[u].children@.take(0), c2);
            }
        }
    }
    assert forall|j: int| 0 <= j < cur.len() implies #[trigger] node_fill_state(
        origins,
        nodes0,
        vals,
        cur,
        k + 1,
        0,
        j,
    ) by {
        assert(node_fill_state(origins, nodes0, vals, cur, k, len_k, j));
    }
}

} // verus!
