use simplex::rational::Rat;
use simplex::solve;
use simplex::tabular::{Coefficients, UpperBoundConstraint, Value};

fn frac(n: i64, d: i64) -> Value {
    Rat::new(n, d)
}

fn upper_bound_constraint(coefficients: Coefficients, bound: Value) -> UpperBoundConstraint {
    UpperBoundConstraint { coefficients, bound }
}

#[test]
fn test_solves_one_variable_zero_constraint_problem() {
    let objective_function = vec![frac(1, 1)];
    let fn_constraints = vec![];
    let solns = solve(&objective_function, &fn_constraints).unwrap();
    let expected_solns = vec![frac(0, 1)];
    assert_eq!(expected_solns, solns);
}

#[test]
fn test_solves_two_variable_zero_constraint_problem() {
    let objective_function = vec![frac(1, 1), frac(2, 1)];
    let fn_constraints = vec![];
    let solns = solve(&objective_function, &fn_constraints).unwrap();
    let expected_solns = vec![frac(0, 1), frac(0, 1)];
    assert_eq!(expected_solns, solns);
}

#[test]
fn test_solves_one_variable_one_constraint_problem() {
    let objective_function = vec![frac(1, 1)];
    let functional_constraint = upper_bound_constraint(vec![frac(1, 1)], frac(1, 1));
    let fn_constraints = vec![functional_constraint];
    let solns = solve(&objective_function, &fn_constraints).unwrap();
    let expected_solns = vec![frac(1, 1)];
    assert_eq!(expected_solns, solns);
}

#[test]
fn test_maximizes_unconstrainted_variable() {
    let objective_function = vec![frac(1, 1), frac(1, 1)];
    let functional_constraint = upper_bound_constraint(vec![frac(3, 1), frac(0, 1)], frac(6, 1));
    let fn_constraints = vec![functional_constraint];
    let solns = solve(&objective_function, &fn_constraints).unwrap();
    let expected_solns = vec![frac(2, 1), frac(0, 1)];
    assert_eq!(expected_solns, solns);
}

#[test]
fn test_maximizes_one_variable_problem() {
    let objective_function = vec![frac(1, 1)];
    let functional_constraint = upper_bound_constraint(vec![frac(3, 1)], frac(6, 1));
    let fn_constraints = vec![functional_constraint];
    let solns = solve(&objective_function, &fn_constraints).unwrap();
    let expected_solns = vec![frac(2, 1)];
    assert_eq!(expected_solns, solns);
}

#[test]
fn test_maximizes_one_variable_two_constraint_problem() {
    let objective_function = vec![frac(1, 1)];
    let fn_constaint_0 = upper_bound_constraint(vec![frac(2, 1)], frac(6, 1));
    let fn_constaint_1 = upper_bound_constraint(vec![frac(3, 1)], frac(6, 1));
    let fn_constraints = vec![fn_constaint_0, fn_constaint_1];
    let solns = solve(&objective_function, &fn_constraints).unwrap();
    let expected_solns = vec![frac(2, 1)];
    assert_eq!(expected_solns, solns);
}

#[test]
fn test_maximizes_two_independent_variable_two_constraint_problem() {
    let objective_function = vec![frac(1, 1), frac(1, 1)];
    let fn_constaint_0 = upper_bound_constraint(vec![frac(2, 1), frac(0, 1)], frac(6, 1));
    let fn_constaint_1 = upper_bound_constraint(vec![frac(0, 1), frac(4, 1)], frac(8, 1));
    let fn_constraints = vec![fn_constaint_0, fn_constaint_1];
    let solns = solve(&objective_function, &fn_constraints).unwrap();
    let expected_solns = vec![frac(3, 1), frac(2, 1)];
    assert_eq!(expected_solns, solns);
}

#[test]
fn test_maximizes_two_dependent_variable_one_constraint_symmetric_problem() {
    let objective_function = vec![frac(1, 1), frac(1, 1)];
    let fn_constaint_0 = upper_bound_constraint(vec![frac(2, 1), frac(4, 1)], frac(6, 1));
    let fn_constraints = vec![fn_constaint_0];
    let solns = solve(&objective_function, &fn_constraints).unwrap();
    let expected_solns = vec![frac(3, 1), frac(0, 1)];
    assert_eq!(expected_solns, solns);
}

#[test]
fn test_maximizes_two_dependent_variable_two_constraint_symmetric_problem() {
    let objective_function = vec![frac(1, 1), frac(1, 1)];
    let fn_constaint_0 = upper_bound_constraint(vec![frac(1, 1), frac(2, 1)], frac(3, 1));
    let fn_constaint_1 = upper_bound_constraint(vec![frac(2, 1), frac(1, 1)], frac(3, 1));
    let fn_constraints = vec![fn_constaint_0, fn_constaint_1];
    let solns = solve(&objective_function, &fn_constraints).unwrap();
    let expected_solns = vec![frac(1, 1), frac(1, 1)];
    assert_eq!(expected_solns, solns);
}

#[test]
fn resolving_the_same_input_gives_the_same_solution() {
    let objective_function = vec![frac(1, 1), frac(1, 1)];
    let fn_constaint_0 = upper_bound_constraint(vec![frac(1, 1), frac(2, 1)], frac(3, 1));
    let fn_constaint_1 = upper_bound_constraint(vec![frac(2, 1), frac(1, 1)], frac(3, 1));
    let fn_constraints = vec![fn_constaint_0, fn_constaint_1];
    let first = solve(&objective_function, &fn_constraints).unwrap();
    let second = solve(&objective_function, &fn_constraints).unwrap();
    assert_eq!(first, second);
}

#[test]
fn solves_problem_with_fractional_data() {
    // maximize x0 subject to (3/2) x0 <= 3/4: x0 = 1/2
    let objective_function = vec![frac(1, 1)];
    let functional_constraint = upper_bound_constraint(vec![frac(3, 2)], frac(3, 4));
    let fn_constraints = vec![functional_constraint];
    let solns = solve(&objective_function, &fn_constraints).unwrap();
    let expected_solns = vec![frac(1, 2)];
    assert_eq!(expected_solns, solns);
}

#[test]
fn reports_no_solution_when_a_value_outgrows_the_machine_word() {
    // the pivot divides the bound by the coefficient; the exact quotient has
    // a numerator far beyond any machine word
    let big = i64::MAX - 1;
    let objective_function = vec![frac(1, 1), frac(1, 1)];
    let fn_constaint_0 = upper_bound_constraint(vec![frac(1, big), frac(1, 1)], frac(big, 1));
    let fn_constaint_1 =
        upper_bound_constraint(vec![frac(1, 1), frac(1, big)], frac(big - 1, 7));
    let fn_constraints = vec![fn_constaint_0, fn_constaint_1];
    assert_eq!(None, solve(&objective_function, &fn_constraints));
}

#[test]
fn zero_objective_returns_origin() {
    let objective_function = vec![frac(0, 1), frac(0, 1)];
    let functional_constraint = upper_bound_constraint(vec![frac(1, 1), frac(1, 1)], frac(5, 1));
    let fn_constraints = vec![functional_constraint];
    let solns = solve(&objective_function, &fn_constraints).unwrap();
    let expected_solns = vec![frac(0, 1), frac(0, 1)];
    assert_eq!(expected_solns, solns);
}
