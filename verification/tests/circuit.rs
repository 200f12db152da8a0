use arithmetic_circuit::enums::{Constraints, CustomU64, ExprVal};
use arithmetic_circuit::node::Node;
use arithmetic_circuit::{Builder, FillError};

// represent x^2 + x + 5 in an arithmetic circuit
#[test]
fn test_sample_polynomial() {
    let mut builder = Builder::new();
    let x = builder.init();
    let x_squared = builder.mul(x, x);
    let five = builder.constant(5);
    let x_squared_plus_5 = builder.add(x_squared, five);
    let _ = builder.add(x_squared_plus_5, x);
    let _fill = builder.fill_nodes(vec![5]);
    assert_eq!(builder.check_constraints(), true);
}

// A declared constant is concrete at once, with no fill involved.
#[test]
fn constant_is_immediately_concrete() {
    let mut builder = Builder::new();
    let five = builder.constant(5);
    assert_eq!(builder.nodes[five].value, CustomU64::Val(5));
}

// Combining two concrete nodes yields an immediately concrete result,
// independent of any later fill.
#[test]
fn operations_on_constants_are_concrete() {
    let mut builder = Builder::new();
    let three = builder.constant(3);
    let four = builder.constant(4);
    let sum = builder.add(three, four);
    let product = builder.mul(three, four);
    assert_eq!(builder.nodes[sum].value, CustomU64::Val(7));
    assert_eq!(builder.nodes[product].value, CustomU64::Val(12));
    let fill = builder.fill_nodes(vec![]);
    assert!(fill.is_ok());
    assert_eq!(builder.nodes[sum].value, CustomU64::Val(7));
    assert_eq!(builder.nodes[product].value, CustomU64::Val(12));
}

// Fill must fail on a value count mismatch, never proceeding with a
// truncated or padded set of inputs.
#[test]
fn fill_with_wrong_count_fails() {
    let mut builder = Builder::new();
    let x = builder.init();
    let _y = builder.init();
    assert_eq!(
        builder.fill_nodes(vec![1]),
        Err(FillError::WrongInputCount)
    );
    assert_eq!(
        builder.fill_nodes(vec![1, 2, 3]),
        Err(FillError::WrongInputCount)
    );
    // nothing was assigned
    assert_eq!(builder.nodes[x].value, CustomU64::Expr(ExprVal::Input));
    // the builder is still usable with the right count
    assert!(builder.fill_nodes(vec![1, 2]).is_ok());
    assert_eq!(builder.nodes[x].value, CustomU64::Val(1));
}

// Two values for one declared input must fail the fill operation.
#[test]
fn fill_two_values_one_input_fails() {
    let mut builder = Builder::new();
    let _x = builder.init();
    assert_eq!(
        builder.fill_nodes(vec![1, 2]),
        Err(FillError::WrongInputCount)
    );
}

// After a fill, every node of the graph holds a concrete value.
#[test]
fn all_nodes_concrete_after_fill() {
    let mut builder = Builder::new();
    let x = builder.init();
    let y = builder.init();
    let two = builder.constant(2);
    let xy = builder.mul(x, y);
    let xy2 = builder.mul(xy, two);
    let s = builder.add(xy2, x);
    let _t = builder.add(s, y);
    assert!(builder.fill_nodes(vec![3, 4]).is_ok());
    for node in &builder.nodes {
        assert!(matches!(node.value, CustomU64::Val(_)));
    }
    // 2 * (3 * 4) + 3 + 4
    assert_eq!(builder.nodes[_t].value, CustomU64::Val(31));
}

// check returns true for a true polynomial identity and false when two
// genuinely different resolved values were asserted equal.
#[test]
fn check_true_identity_and_false_assertion() {
    let mut builder = Builder::new();
    let x = builder.init();
    let y = builder.init();
    let left = builder.add(x, y);
    let right = builder.add(y, x);
    builder.assert_equal(left, right);
    assert!(builder.fill_nodes(vec![11, 31]).is_ok());
    assert_eq!(builder.check_constraints(), true);

    let mut bad = Builder::new();
    let one = bad.constant(1);
    let two = bad.constant(2);
    bad.assert_equal(one, two);
    assert!(bad.fill_nodes(vec![]).is_ok());
    assert_eq!(bad.check_constraints(), false);
}

// Inputs x, constant 5; x_squared = x*x, sum1 = x_squared + 5,
// result = sum1 + x; fill([5]) gives result 35 and a passing check.
#[test]
fn sample_polynomial_value() {
    let mut builder = Builder::new();
    let x = builder.init();
    let x_squared = builder.mul(x, x);
    let five = builder.constant(5);
    let sum1 = builder.add(x_squared, five);
    let result = builder.add(sum1, x);
    assert!(builder.fill_nodes(vec![5]).is_ok());
    assert_eq!(builder.nodes[result].value, CustomU64::Val(35));
    assert_eq!(builder.check_constraints(), true);
}

// A chain of operations over the same input resolves through every level.
#[test]
fn deep_chain_resolves() {
    let mut builder = Builder::new();
    let x = builder.init();
    let a = builder.add(x, x);
    let b = builder.add(a, x);
    let c = builder.add(b, x);
    assert!(builder.fill_nodes(vec![5]).is_ok());
    assert_eq!(builder.nodes[a].value, CustomU64::Val(10));
    assert_eq!(builder.nodes[b].value, CustomU64::Val(15));
    assert_eq!(builder.nodes[c].value, CustomU64::Val(20));
    assert_eq!(builder.check_constraints(), true);
}

// Arithmetic wraps at the 64-bit boundary, matching the recorded
// constraints.
#[test]
fn wrapping_arithmetic() {
    let mut builder = Builder::new();
    let x = builder.init();
    let max = builder.constant(u64::MAX);
    let wrapped_sum = builder.add(max, x);
    let half = builder.constant(1u64 << 63);
    let wrapped_product = builder.mul(half, x);
    assert!(builder.fill_nodes(vec![2]).is_ok());
    assert_eq!(builder.nodes[wrapped_sum].value, CustomU64::Val(1));
    assert_eq!(builder.nodes[wrapped_product].value, CustomU64::Val(0));
    assert_eq!(builder.check_constraints(), true);
}

// Before any fill, constraints over pending nodes are invalid by
// definition, never vacuously true.
#[test]
fn unresolved_constraints_are_invalid() {
    let mut builder = Builder::new();
    let x = builder.init();
    let y = builder.init();
    let _s = builder.add(x, y);
    assert_eq!(builder.check_constraints(), false);

    let mut eq_only = Builder::new();
    let p = eq_only.init();
    let q = eq_only.init();
    eq_only.assert_equal(p, q);
    assert_eq!(eq_only.check_constraints(), false);
}

// An empty circuit fills and checks trivially.
#[test]
fn empty_circuit() {
    let mut builder = Builder::new();
    assert!(builder.fill_nodes(vec![]).is_ok());
    assert_eq!(builder.check_constraints(), true);
}

// Direct checks of single constraints over a hand-built arena.
#[test]
fn constraint_is_valid_direct() {
    let nodes = vec![
        Node { value: CustomU64::Val(2), children: vec![] },
        Node { value: CustomU64::Val(3), children: vec![] },
        Node { value: CustomU64::Val(5), children: vec![] },
        Node { value: CustomU64::Val(6), children: vec![] },
        Node { value: CustomU64::Expr(ExprVal::Input), children: vec![] },
    ];
    assert!(Constraints::Add(0, 1, 2).is_valid(&nodes));
    assert!(!Constraints::Add(0, 1, 3).is_valid(&nodes));
    assert!(Constraints::Mul(0, 1, 3).is_valid(&nodes));
    assert!(!Constraints::Mul(0, 1, 2).is_valid(&nodes));
    assert!(!Constraints::Eq(0, 1).is_valid(&nodes));
    assert!(Constraints::Eq(2, 2).is_valid(&nodes));
    // a constraint naming an unresolved or missing node never holds
    assert!(!Constraints::Add(0, 4, 2).is_valid(&nodes));
    assert!(!Constraints::Eq(0, 9).is_valid(&nodes));
}

// A node shared by several parents is resolved once and seen by all of
// them: both x*y and x+y use the same input nodes.
#[test]
fn shared_inputs_across_operations() {
    let mut builder = Builder::new();
    let x = builder.init();
    let y = builder.init();
    let p = builder.mul(x, y);
    let s = builder.add(x, y);
    let total = builder.add(p, s);
    assert!(builder.fill_nodes(vec![7, 9]).is_ok());
    assert_eq!(builder.nodes[p].value, CustomU64::Val(63));
    assert_eq!(builder.nodes[s].value, CustomU64::Val(16));
    assert_eq!(builder.nodes[total].value, CustomU64::Val(79));
    assert_eq!(builder.check_constraints(), true);
}

// A graph mangled outside the construction protocol is rejected rather than
// resolved: the builder's own operations never produce such a state.
#[test]
fn mangled_graph_is_rejected() {
    let mut builder = Builder::new();
    builder.inputs.push(7);
    assert_eq!(
        builder.fill_nodes(vec![1]),
        Err(FillError::UnexpectedNodeState)
    );
}
