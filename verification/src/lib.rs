//! A tabular (dictionary) simplex solver for standard-form linear programs:
//! maximize a linear objective subject to upper-bound constraints and
//! nonnegative variables, over exact rational arithmetic.
//!
//! The caller hands `solve` the objective's coefficients and the
//! constraints; the engine builds the initial tableau, pivots it to
//! termination, and returns the structural part of the final point. The
//! whole run is specified against the mathematical tableau model in
//! `model`, whose `spec_run` is the reference for what a solve returns.
pub mod model;
pub mod rational;
pub mod render;
pub mod tabular;

use vstd::prelude::*;

use crate::model::{
    initial_problem, seq_q_eq, solve_result_matches, spec_pivot_row, spec_run, spec_step,
    QProblem, QStep,
};
use crate::tabular::{
    input_wf, rats_view, Coefficients, EmptyObserver, Problem, UpperBoundConstraint, Value,
};

verus! {

/// The structural slice of a full tableau point that a whole solve can
/// return: some run of the reference engine ends in a point whose first
/// `n` entries are, as rationals, exactly `out`.
pub open spec fn solve_truncated_matches(init: QProblem, n: int, out: Seq<(int, int)>) -> bool {
    exists|full: Seq<(int, int)>|
        #[trigger] solve_result_matches(init, full) && n <= full.len() && seq_q_eq(
            out,
            full.take(n),
        )
}

/// Solve `maximize objective . x subject to constraints, x >= 0` and return
/// the structural variables' values at the final tableau, one per objective
/// coefficient. `None` means a machine limit was hit during pivoting and no
/// point is available.
pub fn solve(
    objective_fn_coeffs: &Coefficients,
    functional_constraints: &Vec<UpperBoundConstraint>,
) -> (r: Option<Vec<Value>>)
    requires
        input_wf(objective_fn_coeffs@, functional_constraints@),
        objective_fn_coeffs@.len() + functional_constraints@.len() <= usize::MAX,
    ensures
        functional_constraints@.len() == 0 ==> r is Some,
        crate::model::spec_is_optimal(
            initial_problem(
                rats_view(objective_fn_coeffs@),
                functional_constraints@.map_values(|c: UpperBoundConstraint| c@),
            ),
        ) ==> r is Some,
        r matches Some(v) ==> v@.len() == objective_fn_coeffs@.len(),
        r matches Some(v) ==> solve_truncated_matches(
            initial_problem(
                rats_view(objective_fn_coeffs@),
                functional_constraints@.map_values(|c: UpperBoundConstraint| c@),
            ),
            objective_fn_coeffs@.len() as int,
            rats_view(v@),
        ),
{
    let problem = Problem::new(objective_fn_coeffs, functional_constraints);
    let ghost init = problem@;
    if functional_constraints.len() == 0 {
        proof {
            lemma_empty_tableau_returns_point(init);
            assert(seq_q_eq(init.point, init.point));
            assert(crate::model::run_gives(init, 1, init.point));
            assert(solve_result_matches(init, init.point));
            assert(init.point.take(objective_fn_coeffs@.len() as int) =~= init.point);
            assert(solve_truncated_matches(
                init,
                objective_fn_coeffs@.len() as int,
                rats_view(problem.point@),
            ));
        }
        return Some(problem.point);
    }
    let mut observer = EmptyObserver::new();
    match crate::tabular::solve(problem, &mut observer) {
        Option::Some(mut solution) => {
            let ghost full = rats_view(solution@);
            solution.truncate(objective_fn_coeffs.len());
            proof {
                assert(rats_view(solution@) =~= full.take(objective_fn_coeffs@.len() as int));
                assert(solve_truncated_matches(
                    init,
                    objective_fn_coeffs@.len() as int,
                    rats_view(solution@),
                ));
            }
            Some(solution)
        },
        Option::None => None,
    }
}

/// A tableau without rows ends at once: either it is already optimal, or
/// its ratio test finds no row; both return the unchanged point.
proof fn lemma_empty_tableau_returns_point(p: QProblem)
    requires
        p.rows.len() == 0,
    ensures
        spec_run(p, 1) == Some(p.point),
{
    if !crate::model::spec_is_optimal(p) {
        match crate::model::spec_pivot_variable(p) {
            Option::Some(v) => {
                let p1 = crate::model::spec_set_ratios(p, v);
                assert(p1.rows =~= p.rows);
                assert(spec_pivot_row(p1.rows) is None);
                assert(spec_step(p) == QStep::Stalled(p1));
                assert(p1.point == p.point);
            },
            Option::None => {
                assert(spec_step(p) == QStep::Stalled(p));
            },
        }
    }
}

} // verus!
