//! The circuit builder: construction, evaluation and constraint checking.

use crate::enums::{
    concrete_of, constraint_valid, is_concrete, op_apply, Constraints, CustomU64, ExprVal, OpKind,
};
use crate::model::{
    assign_state, denote, fill_ctx, fill_inv, graph_wf, lemma_append_leaf_wf,
    lemma_combine_preserves_wf, lemma_fill_inv_init, lemma_resolved_below,
    node_build_state, Origin,
};
use crate::node::{combine_post, Node};
use vstd::prelude::*;

verus! {

/// Why a fill operation failed.
#[derive(Debug, Clone, Copy, PartialEq, Eq)]
pub enum FillError {
    /// The number of supplied values differs from the number of declared
    /// inputs.
    WrongInputCount,
    /// A node was found in a state the construction protocol can never
    /// produce.
    UnexpectedNodeState,
}

/// Constructs and manages a circuit.
///
/// The builder owns the node arena (`nodes`), the indices of the declared
/// input nodes in declaration order (`inputs`), and the append-only constraint
/// list. `origins` is the ghost record of how each node was created, which the
/// contracts speak of.
pub struct Builder {
    pub nodes: Vec<Node>,
    pub inputs: Vec<usize>,
    pub constraints: Vec<Constraints>,
    pub origins: Ghost<Seq<Origin>>,
}

/// A recorded constraint matches the origin of its result node: the builder
/// only records `Add(a, b, c)` when node `c` was built by adding `a` and `b`,
/// and likewise for `Mul`.
pub open spec fn constraint_origin_ok(origins: Seq<Origin>, c: Constraints) -> bool {
    match c {
        Constraints::Add(a, b, r) => {
            &&& r < origins.len()
            &&& a < r
            &&& b < r
            &&& origins[r as int] == Origin::Oper(OpKind::Add, a as int, b as int)
        },
        Constraints::Mul(a, b, r) => {
            &&& r < origins.len()
            &&& a < r
            &&& b < r
            &&& origins[r as int] == Origin::Oper(OpKind::Mul, a as int, b as int)
        },
        Constraints::Eq(a, b) => {
            &&& a < origins.len()
            &&& b < origins.len()
        },
    }
}

impl Builder {
    /// Well-formedness: the graph is in the state the construction protocol
    /// guarantees (inputs unassigned, every edge with its exact multiplicity)
    /// and every recorded constraint matches its nodes' origins.
    pub open spec fn wf(self) -> bool {
        &&& graph_wf(self.origins@, self.nodes@, self.inputs@)
        &&& forall|t: int|
            0 <= t < self.constraints@.len() ==> #[trigger] constraint_origin_ok(
                self.origins@,
                self.constraints@[t],
            )
    }

    /// Every node holds the concrete value it denotes under the input values
    /// `vals`.
    pub open spec fn resolved(self, vals: Seq<u64>) -> bool {
        forall|j: int|
            0 <= j < self.nodes@.len() ==> (#[trigger] self.nodes@[j]).value == CustomU64::Val(
                denote(self.origins@, vals, j),
            )
    }

    /// Every recorded constraint holds over the current node values.
    pub open spec fn all_constraints_hold(self) -> bool {
        forall|t: int|
            0 <= t < self.constraints@.len() ==> constraint_valid(
                #[trigger] self.constraints@[t],
                self.nodes@,
            )
    }

    /// Creates an empty circuit builder.
    pub fn new() -> (r: Builder)
        ensures
            r.wf(),
            r.nodes@.len() == 0,
            r.inputs@.len() == 0,
            r.constraints@.len() == 0,
            r.origins@.len() == 0,
    {
        Builder {
            nodes: Vec::new(),
            inputs: Vec::new(),
            constraints: Vec::new(),
            origins: Ghost(Seq::empty()),
        }
    }

    /// Declares a new circuit input and returns its node index. The node is
    /// unassigned until `fill_nodes` supplies a value for it; inputs are
    /// matched to supplied values positionally, in declaration order.
    pub fn init(&mut self) -> (r: usize)
        requires
            old(self).wf(),
        ensures
            final(self).wf(),
            r == old(self).nodes@.len(),
            final(self).nodes@.len() == old(self).nodes@.len() + 1,
            final(self).nodes@[r as int].value == CustomU64::Expr(ExprVal::Input),
            final(self).inputs@ == old(self).inputs@.push(r),
            final(self).origins@ == old(self).origins@.push(Origin::Input(old(self).inputs@.len() as int)),
            final(self).constraints@ == old(self).constraints@,
            forall|j: int|
                0 <= j < old(self).nodes@.len() ==> (#[trigger] final(self).nodes@[j]).value == old(
                    self,
                ).nodes@[j].value && final(self).nodes@[j].children@ == old(self).nodes@[j].children@,
    {
        let r = self.nodes.len();
        let node = Node::init();
        self.nodes.push(node);
        self.inputs.push(r);
        proof {
            let o = Origin::Input(old(self).inputs@.len() as int);
            self.origins@ = self.origins@.push(o);
            lemma_append_leaf_wf(
                old(self).origins@,
                old(self).nodes@,
                old(self).inputs@,
                self.nodes@,
                self.inputs@,
                o,
            );
            assert forall|t: int| 0 <= t < self.constraints@.len() implies
                #[trigger] constraint_origin_ok(self.origins@, self.constraints@[t]) by {
                assert(constraint_origin_ok(old(self).origins@, self.constraints@[t]));
            }
        }
        r
    }

    /// Declares a constant node holding `value` and returns its index. The
    /// node is concrete immediately; it does not depend on any later fill.
    pub fn constant(&mut self, value: u64) -> (r: usize)
        requires
            old(self).wf(),
        ensures
            final(self).wf(),
            r == old(self).nodes@.len(),
            final(self).nodes@.len() == old(self).nodes@.len() + 1,
            final(self).nodes@[r as int].value == CustomU64::Val(value),
            final(self).inputs@ == old(self).inputs@,
            final(self).origins@ == old(self).origins@.push(Origin::Const(value)),
            final(self).constraints@ == old(self).constraints@,
            forall|j: int|
                0 <= j < old(self).nodes@.len() ==> (#[trigger] final(self).nodes@[j]).value == old(
                    self,
                ).nodes@[j].value && final(self).nodes@[j].children@ == old(self).nodes@[j].children@,
    {
        let r = self.nodes.len();
        let node = Node::new(value);
        self.nodes.push(node);
        proof {
            let o = Origin::Const(value);
            self.origins@ = self.origins@.push(o);
            lemma_append_leaf_wf(
                old(self).origins@,
                old(self).nodes@,
                old(self).inputs@,
                self.nodes@,
                self.inputs@,
                o,
            );
            assert forall|t: int| 0 <= t < self.constraints@.len() implies
                #[trigger] constraint_origin_ok(self.origins@, self.constraints@[t]) by {
                assert(constraint_origin_ok(old(self).origins@, self.constraints@[t]));
            }
        }
        r
    }

    /// Combines two nodes under `op`, records the matching constraint, and
    /// returns the result node's index.
    fn combine_op(&mut self, a: usize, b: usize, op: OpKind) -> (r: usize)
        requires
            old(self).wf(),
            a < old(self).nodes@.len(),
            b < old(self).nodes@.len(),
        ensures
            final(self).wf(),
            r == old(self).nodes@.len(),
            final(self).inputs@ == old(self).inputs@,
            final(self).origins@ == old(self).origins@.push(Origin::Oper(op, a as int, b as int)),
            final(self).constraints@ == old(self).constraints@.push(
                match op {
                    OpKind::Add => Constraints::Add(a, b, r),
                    OpKind::Mul => Constraints::Mul(a, b, r),
                },
            ),
            combine_post(old(self).nodes@, final(self).nodes@, op, a, b, r),
    {
        let r = Node::combine(&mut self.nodes, a, b, op);
        let gate = match op {
            OpKind::Add => Constraints::Add(a, b, r),
            OpKind::Mul => Constraints::Mul(a, b, r),
        };
        self.constraints.push(gate);
        proof {
            let o = Origin::Oper(op, a as int, b as int);
            self.origins@ = self.origins@.push(o);
            lemma_combine_preserves_wf(
                old(self).origins@,
                old(self).nodes@,
                old(self).inputs@,
                self.nodes@,
                op,
                a,
                b,
                r,
            );
            assert forall|t: int| 0 <= t < self.constraints@.len() implies
                #[trigger] constraint_origin_ok(self.origins@, self.constraints@[t]) by {
                if t < old(self).constraints@.len() {
                    assert(constraint_origin_ok(old(self).origins@, self.constraints@[t]));
                }
            }
        }
        r
    }

    /// Adds two nodes, producing a new node and recording a sum constraint.
    ///
    /// If both operands are already concrete the result is immediately
    /// concrete — their wrapping sum, independent of any later fill. If any
    /// operand is unresolved, the result is a pending node linked into the
    /// graph for resolution during `fill_nodes`.
    pub fn add(&mut self, a: usize, b: usize) -> (r: usize)
        requires
            old(self).wf(),
            a < old(self).nodes@.len(),
            b < old(self).nodes@.len(),
        ensures
            final(self).wf(),
            r == old(self).nodes@.len(),
            final(self).inputs@ == old(self).inputs@,
            final(self).origins@ == old(self).origins@.push(
                Origin::Oper(OpKind::Add, a as int, b as int),
            ),
            final(self).constraints@ == old(self).constraints@.push(Constraints::Add(a, b, r)),
            combine_post(old(self).nodes@, final(self).nodes@, OpKind::Add, a, b, r),
            is_concrete(old(self).nodes@[a as int].value) && is_concrete(
                old(self).nodes@[b as int].value,
            ) ==> final(self).nodes@[r as int].value == CustomU64::Val(
                op_apply(
                    OpKind::Add,
                    concrete_of(old(self).nodes@[a as int].value),
                    concrete_of(old(self).nodes@[b as int].value),
                ),
            ),
    {
        self.combine_op(a, b, OpKind::Add)
    }

    /// Multiplies two nodes, producing a new node and recording a product
    /// constraint.
    ///
    /// If both operands are already concrete the result is immediately
    /// concrete — their wrapping product, independent of any later fill. If
    /// any operand is unresolved, the result is a pending node linked into the
    /// graph for resolution during `fill_nodes`.
    pub fn mul(&mut self, a: usize, b: usize) -> (r: usize)
        requires
            old(self).wf(),
            a < old(self).nodes@.len(),
            b < old(self).nodes@.len(),
        ensures
            final(self).wf(),
            r == old(self).nodes@.len(),
            final(self).inputs@ == old(self).inputs@,
            final(self).origins@ == old(self).origins@.push(
                Origin::Oper(OpKind::Mul, a as int, b as int),
            ),
            final(self).constraints@ == old(self).constraints@.push(Constraints::Mul(a, b, r)),
            combine_post(old(self).nodes@, final(self).nodes@, OpKind::Mul, a, b, r),
            is_concrete(old(self).nodes@[a as int].value) && is_concrete(
                old(self).nodes@[b as int].value,
            ) ==> final(self).nodes@[r as int].value == CustomU64::Val(
                op_apply(
                    OpKind::Mul,
                    concrete_of(old(self).nodes@[a as int].value),
                    concrete_of(old(self).nodes@[b as int].value),
                ),
            ),
    {
        self.combine_op(a, b, OpKind::Mul)
    }

    /// Asserts that two existing nodes are equal in value, by appending an
    /// equality constraint to be checked by `check_constraints`. No node is
    /// created.
    pub fn assert_equal(&mut self, a: usize, b: usize)
        requires
            old(self).wf(),
            a < old(self).nodes@.len(),
            b < old(self).nodes@.len(),
        ensures
            final(self).wf(),
            final(self).nodes@ == old(self).nodes@,
            final(self).inputs@ == old(self).inputs@,
            final(self).origins@ == old(self).origins@,
            final(self).constraints@ == old(self).constraints@.push(Constraints::Eq(a, b)),
    {
        self.constraints.push(Constraints::Eq(a, b));
        proof {
            assert forall|t: int| 0 <= t < self.constraints@.len() implies
                #[trigger] constraint_origin_ok(self.origins@, self.constraints@[t]) by {
                if t < old(self).constraints@.len() {
                    assert(constraint_origin_ok(old(self).origins@, self.constraints@[t]));
                }
            }
        }
    }


    /// Assigns the supplied values to the declared inputs, in declaration
    /// order, and drives every node of the graph to a concrete value.
    ///
    /// Fails with `WrongInputCount` exactly when the number of supplied values
    /// differs from the number of declared inputs, leaving the circuit
    /// untouched: the operation never proceeds with a truncated or padded
    /// value list. On a well-formed circuit with the right number of values
    /// the fill succeeds and afterwards every node holds precisely the value
    /// its expression denotes. `UnexpectedNodeState` can arise only on a graph
    /// that the construction protocol did not produce.
    pub fn fill_nodes(&mut self, input: Vec<u64>) -> (r: Result<(), FillError>)
        ensures
            final(self).inputs@ == old(self).inputs@,
            final(self).origins@ == old(self).origins@,
            final(self).constraints@ == old(self).constraints@,
            final(self).nodes@.len() == old(self).nodes@.len(),
            forall|j: int|
                0 <= j < final(self).nodes@.len() ==> (#[trigger] final(self).nodes@[j]).children@
                    == old(self).nodes@[j].children@,
            (r == Err::<(), FillError>(FillError::WrongInputCount)) <==> (input@.len() != old(
                self,
            ).inputs@.len()),
            input@.len() != old(self).inputs@.len() ==> *final(self) == *old(self),
            old(self).wf() && input@.len() == old(self).inputs@.len() ==> {
                &&& r == Ok::<(), FillError>(())
                &&& final(self).resolved(input@)
            },
    {
        if input.len() != self.inputs.len() {
            return Err(FillError::WrongInputCount);
        }
        let ghost origins = self.origins@;
        let ghost nodes0 = self.nodes@;
        let ghost inputs0 = self.inputs@;
        let ghost vals = input@;
        let ghost ctx = fill_ctx(origins, nodes0, inputs0, vals);
        let mut p: usize = 0;
        while p < input.len()
            invariant
                p <= input@.len(),
                input@ == vals,
                input@.len() == inputs0.len(),
                self.inputs@ == inputs0,
                self.origins@ == origins,
                self.constraints@ == old(self).constraints@,
                self.nodes@.len() == nodes0.len(),
                forall|j: int|
                    0 <= j < self.nodes@.len() ==> (#[trigger] self.nodes@[j]).children@
                        == nodes0[j].children@,
                inputs0 == old(self).inputs@,
                origins == old(self).origins@,
                nodes0 == old(self).nodes@,
                ctx == fill_ctx(origins, nodes0, inputs0, vals),
                ctx ==> forall|j: int|
                    0 <= j < self.nodes@.len() ==> #[trigger] assign_state(
                        origins,
                        nodes0,
                        vals,
                        self.nodes@,
                        p as int,
                        j,
                    ),
            decreases input@.len() - p,
        {
            let idx = self.inputs[p];
            if idx >= self.nodes.len() {
                return Err(FillError::UnexpectedNodeState);
            }
            let ghost pre = self.nodes@;
            self.nodes[idx].value = CustomU64::Val(input[p]);
            proof {
                if ctx {
                    assert(origins[idx as int] == Origin::Input(p as int));
                    assert forall|j: int| 0 <= j < self.nodes@.len() implies #[trigger] assign_state(
                        origins,
                        nodes0,
                        vals,
                        self.nodes@,
                        p as int + 1,
                        j,
                    ) by {
                        assert(assign_state(origins, nodes0, vals, pre, p as int, j));
                        assert(node_build_state(origins, nodes0, inputs0, j));
                    }
                }
            }
            p = p + 1;
        }
        proof {
            if ctx {
                lemma_fill_inv_init(origins, nodes0, inputs0, vals, self.nodes@);
            }
        }
        let n = self.nodes.len();
        let mut k: usize = 0;
        while k < n
            invariant
                k <= n,
                n == self.nodes@.len(),
                self.nodes@.len() == nodes0.len(),
                self.inputs@ == inputs0,
                self.origins@ == origins,
                self.constraints@ == old(self).constraints@,
                forall|j: int|
                    0 <= j < self.nodes@.len() ==> (#[trigger] self.nodes@[j]).children@
                        == nodes0[j].children@,
                inputs0 == old(self).inputs@,
                origins == old(self).origins@,
                nodes0 == old(self).nodes@,
                vals == input@,
                input@.len() == old(self).inputs@.len(),
                ctx == fill_ctx(origins, nodes0, inputs0, vals),
                ctx ==> fill_inv(origins, nodes0, vals, self.nodes@, k as int, 0),
            decreases n - k,
        {
            proof {
                if ctx {
                    lemma_resolved_below(
                        origins,
                        nodes0,
                        inputs0,
                        vals,
                        self.nodes@,
                        k as int,
                        k as int,
                    );
                }
            }
            let vk = self.nodes[k].value;
            match vk {
                CustomU64::Val(v) => {
                    let res = Node::evaluate_children(
                        &mut self.nodes,
                        k,
                        v,
                        Ghost(origins),
                        Ghost(nodes0),
                        Ghost(inputs0),
                        Ghost(vals),
                    );
                    match res {
                        Ok(()) => {},
                        Err(e) => {
                            return Err(e);
                        },
                    }
                },
                CustomU64::Expr(_) => {
                    return Err(FillError::UnexpectedNodeState);
                },
            }
            k = k + 1;
        }
        proof {
            if ctx {
                assert forall|j: int| 0 <= j < self.nodes@.len() implies (#[trigger] self.nodes@[j]).value
                    == CustomU64::Val(denote(origins, vals, j)) by {
                    lemma_resolved_below(origins, nodes0, inputs0, vals, self.nodes@, n as int, j);
                }
            }
        }
        Ok(())
    }

    /// Checks every recorded constraint over the current node values and
    /// returns true exactly when all of them hold. Performs no mutation.
    pub fn check_constraints(&self) -> (r: bool)
        ensures
            r == self.all_constraints_hold(),
    {
        let mut i: usize = 0;
        let mut ok = true;
        while i < self.constraints.len()
            invariant
                i <= self.constraints@.len(),
                ok == forall|t: int|
                    0 <= t < i ==> constraint_valid(#[trigger] self.constraints@[t], self.nodes@),
            decreases self.constraints@.len() - i,
        {
            let valid = self.constraints[i].is_valid(&self.nodes);
            ok = ok && valid;
            i = i + 1;
        }
        ok
    }
}


/// Law: after a fill that resolved every node, each sum and product
/// constraint recorded by `add`/`mul` holds over the resolved values: the
/// result node's value is exactly the wrapping operation applied to its
/// operands' values.
pub proof fn lemma_operation_constraints_hold(b: Builder, vals: Seq<u64>)
    requires
        forall|t: int|
            0 <= t < b.constraints@.len() ==> #[trigger] constraint_origin_ok(
                b.origins@,
                b.constraints@[t],
            ),
        b.origins@.len() == b.nodes@.len(),
        b.resolved(vals),
    ensures
        forall|t: int|
            0 <= t < b.constraints@.len() && !(b.constraints@[t] matches Constraints::Eq(_, _))
                ==> constraint_valid(#[trigger] b.constraints@[t], b.nodes@),
{
    assert forall|t: int|
        0 <= t < b.constraints@.len() && !(b.constraints@[t] matches Constraints::Eq(_, _))
        implies constraint_valid(#[trigger] b.constraints@[t], b.nodes@) by {
        assert(constraint_origin_ok(b.origins@, b.constraints@[t]));
        match b.constraints@[t] {
            Constraints::Add(x, y, r) => {
                assert(b.nodes@[x as int].value == CustomU64::Val(denote(b.origins@, vals, x as int)));
                assert(b.nodes@[y as int].value == CustomU64::Val(denote(b.origins@, vals, y as int)));
                assert(b.nodes@[r as int].value == CustomU64::Val(denote(b.origins@, vals, r as int)));
            },
            Constraints::Mul(x, y, r) => {
                assert(b.nodes@[x as int].value == CustomU64::Val(denote(b.origins@, vals, x as int)));
                assert(b.nodes@[y as int].value == CustomU64::Val(denote(b.origins@, vals, y as int)));
                assert(b.nodes@[r as int].value == CustomU64::Val(denote(b.origins@, vals, r as int)));
            },
            Constraints::Eq(_, _) => {},
        }
    }
}

/// Law: on a fully resolved circuit the constraint check succeeds exactly
/// when every equality asserted via `assert_equal` relates nodes whose
/// expressions denote the same value — the sum and product constraints
/// themselves always hold after a fill.
pub proof fn lemma_check_after_fill(b: Builder, vals: Seq<u64>)
    requires
        forall|t: int|
            0 <= t < b.constraints@.len() ==> #[trigger] constraint_origin_ok(
                b.origins@,
                b.constraints@[t],
            ),
        b.origins@.len() == b.nodes@.len(),
        b.resolved(vals),
    ensures
        b.all_constraints_hold() <==> (forall|t: int|
            0 <= t < b.constraints@.len() ==> ((#[trigger] b.constraints@[t]) matches
                Constraints::Eq(x, y) ==> denote(b.origins@, vals, x as int) == denote(
                b.origins@,
                vals,
                y as int,
            ))),
{
    lemma_operation_constraints_hold(b, vals);
    if b.all_constraints_hold() {
        assert forall|t: int| 0 <= t < b.constraints@.len() implies ((#[trigger] b.constraints@[t])
            matches Constraints::Eq(x, y) ==> denote(b.origins@, vals, x as int) == denote(
            b.origins@,
            vals,
            y as int,
        )) by {
            assert(constraint_valid(b.constraints@[t], b.nodes@));
            assert(constraint_origin_ok(b.origins@, b.constraints@[t]));
            match b.constraints@[t] {
                Constraints::Eq(x, y) => {
                    assert(b.nodes@[x as int].value == CustomU64::Val(
                        denote(b.origins@, vals, x as int),
                    ));
                    assert(b.nodes@[y as int].value == CustomU64::Val(
                        denote(b.origins@, vals, y as int),
                    ));
                },
                _ => {},
            }
        }
    }
    if forall|t: int|
        0 <= t < b.constraints@.len() ==> ((#[trigger] b.constraints@[t]) matches Constraints::Eq(
            x,
            y,
        ) ==> denote(b.origins@, vals, x as int) == denote(b.origins@, vals, y as int)) {
        assert forall|t: int| 0 <= t < b.constraints@.len() implies constraint_valid(
            #[trigger] b.constraints@[t],
            b.nodes@,
        ) by {
            assert(constraint_origin_ok(b.origins@, b.constraints@[t]));
            match b.constraints@[t] {
                Constraints::Eq(x, y) => {
                    assert(b.nodes@[x as int].value == CustomU64::Val(
                        denote(b.origins@, vals, x as int),
                    ));
                    assert(b.nodes@[y as int].value == CustomU64::Val(
                        denote(b.origins@, vals, y as int),
                    ));
                },
                _ => {},
            }
        }
    }
}


} // verus!
