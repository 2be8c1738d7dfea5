//! The tabular simplex engine.
//!
//! A `Problem` is the full state of the method: the objective row, one row
//! per constraint (each owning a basic variable), and the current solution
//! point. `Problem::new` builds the initial tableau from a standard-form
//! input; `solve` pivots it to termination. Every function is specified
//! against the mathematical tableau model of `crate::model`.
use vstd::prelude::*;

use crate::model::{
    iter_pivots, lemma_equiv_wf, lemma_is_optimal_congr, lemma_iter_terminal,
    lemma_pivot_row_congr, lemma_pivot_variable_congr, lemma_problem_equiv_refl,
    lemma_problem_equiv_trans, lemma_set_ratios_congr, lemma_with_row_basic_congr,
    lemma_with_row_eq_congr, run_gives, solve_result_matches, spec_run, spec_step, QStep,
    eq_wf, equation_equiv, initial_objective, initial_point as initial_point_spec, initial_problem,
    initial_row, lemma_min_idx_bounds, min_idx, problem_equiv, problem_wf, slack_block,
    spec_is_optimal, spec_new_point,
    spec_normalize_eq, spec_pivot_row, spec_pivot_variable, spec_reduce_all, spec_reduce_eq,
    spec_row_ratio, spec_set_ratios, with_new_point, with_row_basic, with_row_eq, QConstraint,
    QEquation, QProblem, QRow,
};
use crate::rational::{q_eq, q_le, q_lt, q_wf, q_zero, Rat};
use crate::rational::{rat_div, rat_le, rat_lt, rat_mul, rat_sub};
use vstd::pervasive::VecAdditionalExecFns;

verus! {

/// The exact numeric type of the engine.
pub type Value = Rat;

/// An ordered sequence of values, indexed by variable.
pub type Coefficients = Vec<Value>;

/// A zero-based variable index: structural variables first, then one slack
/// variable per constraint.
pub type Variable = usize;

/// An input constraint `sum coefficients[i] * x_i <= bound`.
pub struct UpperBoundConstraint {
    pub coefficients: Coefficients,
    pub bound: Value,
}

/// One tableau row as an equation: `sum coefficients[i] * x_i = constraint`.
#[derive(PartialEq, Debug, Clone)]
pub struct Equation {
    pub coefficients: Coefficients,
    pub constraint: Value,
}

/// A constraint row: the variable this row currently determines, its
/// equation, and the ratio-test scratch value.
#[derive(PartialEq, Debug, Clone)]
pub struct SimplexRow {
    pub basic_variable: Variable,
    pub equation: Equation,
    pub ratio: Value,
}

/// The full tableau.
#[derive(PartialEq, Debug, Clone)]
pub struct Problem {
    pub objective_equation: Equation,
    pub rows: Vec<SimplexRow>,
    pub point: Vec<Value>,
}

/// The sequence of rationals denoted by a sequence of machine rationals.
pub open spec fn rats_view(s: Seq<Rat>) -> Seq<(int, int)> {
    s.map_values(|r: Rat| r.q())
}

/// All entries have positive denominators.
pub open spec fn rats_wf(s: Seq<Rat>) -> bool {
    forall|i: int| 0 <= i < s.len() ==> (#[trigger] s[i]).wf()
}

impl View for Equation {
    type V = QEquation;

    open spec fn view(&self) -> QEquation {
        QEquation { coeffs: rats_view(self.coefficients@), constant: self.constraint.q() }
    }
}

impl View for SimplexRow {
    type V = QRow;

    open spec fn view(&self) -> QRow {
        QRow { basic: self.basic_variable as int, eq: self.equation@, ratio: self.ratio.q() }
    }
}

impl View for Problem {
    type V = QProblem;

    open spec fn view(&self) -> QProblem {
        QProblem {
            objective: self.objective_equation@,
            rows: self.rows@.map_values(|r: SimplexRow| r@),
            point: rats_view(self.point@),
        }
    }
}

impl View for UpperBoundConstraint {
    type V = QConstraint;

    open spec fn view(&self) -> QConstraint {
        QConstraint { coeffs: rats_view(self.coefficients@), bound: self.bound.q() }
    }
}

/// A sink for tableau snapshots: `solve` hands it the initial tableau and
/// the state after every pivot.
pub trait ProblemObserver {
    fn observe(&mut self, problem: Problem);
}

/// An observer that discards every snapshot.
pub struct EmptyObserver;

impl ProblemObserver for EmptyObserver {
    fn observe(&mut self, _problem: Problem) {
    }
}

impl EmptyObserver {
    pub fn new() -> (r: EmptyObserver)
        ensures
            r == EmptyObserver,
    {
        EmptyObserver {  }
    }
}

/// The input is well formed for `n` structural variables: every value has a
/// positive denominator, every coefficient vector has length `n`, and every
/// objective coefficient can be negated in a machine word.
pub open spec fn input_wf(obj: Seq<Rat>, cons: Seq<UpperBoundConstraint>) -> bool {
    &&& rats_wf(obj)
    &&& forall|i: int| 0 <= i < obj.len() ==> (#[trigger] obj[i]).num > i64::MIN
    &&& forall|j: int| 0 <= j < cons.len() ==> (#[trigger] cons[j]).bound.wf()
    &&& forall|j: int| 0 <= j < cons.len() ==> rats_wf((#[trigger] cons[j]).coefficients@)
    &&& forall|j: int| 0 <= j < cons.len() ==> (#[trigger] cons[j]).coefficients@.len() == obj.len()
}

/// The objective row of the initial tableau: the negated objective
/// coefficients, a zero per slack variable, and constant zero.
pub fn initial_objective_equation(objective_fn_coeffs: &Coefficients, nonbasic_var_count: usize) -> (r:
    Equation)
    requires
        rats_wf(objective_fn_coeffs@),
        forall|i: int|
            0 <= i < objective_fn_coeffs@.len() ==> (#[trigger] objective_fn_coeffs@[i]).num
                > i64::MIN,
    ensures
        r@ == initial_objective(rats_view(objective_fn_coeffs@), nonbasic_var_count as int),
        eq_wf(r@),
{
    let n = objective_fn_coeffs.len();
    let mut coefficients: Vec<Rat> = Vec::new();
    let mut i: usize = 0;
    while i < n
        invariant
            i <= n,
            n == objective_fn_coeffs@.len(),
            rats_wf(objective_fn_coeffs@),
            forall|t: int|
                0 <= t < n ==> (#[trigger] objective_fn_coeffs@[t]).num > i64::MIN,
            coefficients@.len() == i,
            forall|t: int|
                0 <= t < i ==> (#[trigger] coefficients@[t]).q() == (
                -(objective_fn_coeffs@[t].q().0),
                objective_fn_coeffs@[t].q().1,
            ),
            rats_wf(coefficients@),
        decreases n - i,
    {
        coefficients.push(objective_fn_coeffs[i].neg());
        i = i + 1;
    }
    let mut k: usize = 0;
    while k < nonbasic_var_count
        invariant
            k <= nonbasic_var_count,
            coefficients@.len() == n + k,
            n == objective_fn_coeffs@.len(),
            forall|t: int|
                0 <= t < n ==> (#[trigger] coefficients@[t]).q() == (
                -(objective_fn_coeffs@[t].q().0),
                objective_fn_coeffs@[t].q().1,
            ),
            forall|t: int| n <= t < coefficients@.len() ==> (#[trigger] coefficients@[t]).q() == q_zero(),
            rats_wf(coefficients@),
        decreases nonbasic_var_count - k,
    {
        coefficients.push(Rat::from_int(0));
        k = k + 1;
    }
    let r = Equation { coefficients, constraint: Rat::from_int(0) };
    proof {
        let want = initial_objective(rats_view(objective_fn_coeffs@), nonbasic_var_count as int);
        assert(r@.coeffs =~= want.coeffs);
        assert(r@ =~~= want);
    }
    r
}

/// The constraint's coefficients extended with the identity block of its
/// slack variable.
pub fn with_slack_variable(coefficients: &Vec<Value>, target_var: Variable, basic_var_count: usize) -> (r:
    Vec<Value>)
    requires
        rats_wf(coefficients@),
    ensures
        rats_view(r@) == rats_view(coefficients@) + slack_block(
            target_var as int,
            basic_var_count as int,
        ),
        rats_wf(r@),
        r@.len() == coefficients@.len() + basic_var_count,
{
    let n = coefficients.len();
    let mut coeffs: Vec<Rat> = Vec::new();
    let mut i: usize = 0;
    while i < n
        invariant
            i <= n,
            n == coefficients@.len(),
            rats_wf(coefficients@),
            coeffs@.len() == i,
            forall|t: int| 0 <= t < i ==> #[trigger] coeffs@[t] == coefficients@[t],
            rats_wf(coeffs@),
        decreases n - i,
    {
        coeffs.push(coefficients[i]);
        i = i + 1;
    }
    let mut var: usize = 0;
    while var < basic_var_count
        invariant
            var <= basic_var_count,
            n == coefficients@.len(),
            coeffs@.len() == n + var,
            forall|t: int| 0 <= t < n ==> #[trigger] coeffs@[t] == coefficients@[t],
            forall|t: int|
                n <= t < coeffs@.len() ==> (#[trigger] coeffs@[t]).q() == (
                if t - n == target_var {
                    (1int, 1int)
                } else {
                    q_zero()
                }),
            rats_wf(coeffs@),
        decreases basic_var_count - var,
    {
        coeffs.push(if var == target_var {
            Rat::from_int(1)
        } else {
            Rat::from_int(0)
        });
        var = var + 1;
    }
    proof {
        assert(rats_view(coeffs@) =~= rats_view(coefficients@) + slack_block(
            target_var as int,
            basic_var_count as int,
        ));
    }
    coeffs
}

/// The equality form of one input constraint: its coefficients, the slack
/// identity block, and the bound as the row constant.
pub fn equality_constraint(
    constraint: &UpperBoundConstraint,
    target_var: Variable,
    basic_var_count: usize,
) -> (r: Equation)
    requires
        rats_wf(constraint.coefficients@),
        constraint.bound.wf(),
    ensures
        r@ == (QEquation {
            coeffs: rats_view(constraint.coefficients@) + slack_block(
                target_var as int,
                basic_var_count as int,
            ),
            constant: constraint.bound.q(),
        }),
        eq_wf(r@),
        r.coefficients@.len() == constraint.coefficients@.len() + basic_var_count,
{
    let coeffs = &constraint.coefficients;
    Equation {
        coefficients: with_slack_variable(coeffs, target_var, basic_var_count),
        constraint: constraint.bound,
    }
}

/// One initial row per constraint, each with its slack variable as basic
/// variable and a zero scratch ratio.
pub fn initial_rows(
    functional_constraints: &Vec<UpperBoundConstraint>,
    nonbasic_var_count: usize,
) -> (r: Vec<SimplexRow>)
    requires
        forall|j: int|
            0 <= j < functional_constraints@.len() ==> rats_wf(
                (#[trigger] functional_constraints@[j]).coefficients@,
            ),
        forall|j: int|
            0 <= j < functional_constraints@.len() ==> (#[trigger] functional_constraints@[j]).bound.wf(),
        nonbasic_var_count + functional_constraints@.len() <= usize::MAX,
    ensures
        r@.map_values(|row: SimplexRow| row@) == Seq::new(
            functional_constraints@.len(),
            |j: int|
                initial_row(
                    functional_constraints@[j]@,
                    j,
                    nonbasic_var_count as int,
                    functional_constraints@.len() as int,
                ),
        ),
        r@.len() == functional_constraints@.len(),
        forall|j: int| 0 <= j < r@.len() ==> eq_wf((#[trigger] r@[j]).equation@),
        forall|j: int| 0 <= j < r@.len() ==> (#[trigger] r@[j]).ratio.wf(),
        forall|j: int|
            0 <= j < r@.len() ==> (#[trigger] r@[j]).equation.coefficients@.len()
                == functional_constraints@[j].coefficients@.len() + functional_constraints@.len(),
{
    let m = functional_constraints.len();
    let mut rows: Vec<SimplexRow> = Vec::new();
    let mut var: usize = 0;
    while var < m
        invariant
            var <= m,
            m == functional_constraints@.len(),
            nonbasic_var_count + m <= usize::MAX,
            forall|j: int|
                0 <= j < m ==> rats_wf((#[trigger] functional_constraints@[j]).coefficients@),
            forall|j: int| 0 <= j < m ==> (#[trigger] functional_constraints@[j]).bound.wf(),
            rows@.len() == var,
            forall|j: int|
                0 <= j < var ==> (#[trigger] rows@[j])@ == initial_row(
                    functional_constraints@[j]@,
                    j,
                    nonbasic_var_count as int,
                    m as int,
                ),
            forall|j: int| 0 <= j < var ==> eq_wf((#[trigger] rows@[j]).equation@),
            forall|j: int| 0 <= j < var ==> (#[trigger] rows@[j]).ratio.wf(),
            forall|j: int|
                0 <= j < var ==> (#[trigger] rows@[j]).equation.coefficients@.len()
                    == functional_constraints@[j].coefficients@.len() + m,
        decreases m - var,
    {
        let constraint = &functional_constraints[var];
        let row = SimplexRow {
            basic_variable: nonbasic_var_count + var,
            equation: equality_constraint(constraint, var, m),
            ratio: Rat::from_int(0),
        };
        rows.push(row);
        var = var + 1;
    }
    proof {
        assert(rows@.map_values(|row: SimplexRow| row@) =~~= Seq::new(
            functional_constraints@.len(),
            |j: int|
                initial_row(
                    functional_constraints@[j]@,
                    j,
                    nonbasic_var_count as int,
                    functional_constraints@.len() as int,
                ),
        ));
    }
    rows
}

/// The initial point: structural variables at zero, each slack variable at
/// its constraint's bound.
pub fn initial_point(
    objective_fn_coeffs: &Coefficients,
    constraints: &Vec<UpperBoundConstraint>,
) -> (r: Vec<Value>)
    requires
        forall|j: int| 0 <= j < constraints@.len() ==> (#[trigger] constraints@[j]).bound.wf(),
    ensures
        rats_view(r@) == initial_point_spec(
            objective_fn_coeffs@.len() as int,
            constraints@.map_values(|c: UpperBoundConstraint| c@),
        ),
        rats_wf(r@),
        r@.len() == objective_fn_coeffs@.len() + constraints@.len(),
{
    let n = objective_fn_coeffs.len();
    let mut point: Vec<Rat> = Vec::new();
    let mut i: usize = 0;
    while i < n
        invariant
            i <= n,
            point@.len() == i,
            forall|t: int| 0 <= t < i ==> (#[trigger] point@[t]).q() == q_zero(),
            rats_wf(point@),
        decreases n - i,
    {
        point.push(Rat::from_int(0));
        i = i + 1;
    }
    let m = constraints.len();
    let mut j: usize = 0;
    while j < m
        invariant
            j <= m,
            m == constraints@.len(),
            forall|t: int| 0 <= t < m ==> (#[trigger] constraints@[t]).bound.wf(),
            point@.len() == n + j,
            forall|t: int| 0 <= t < n ==> (#[trigger] point@[t]).q() == q_zero(),
            forall|t: int|
                n <= t < point@.len() ==> #[trigger] point@[t] == constraints@[t - n].bound,
            rats_wf(point@),
        decreases m - j,
    {
        point.push(constraints[j].bound);
        j = j + 1;
    }
    proof {
        assert(rats_view(point@) =~= initial_point_spec(
            objective_fn_coeffs@.len() as int,
            constraints@.map_values(|c: UpperBoundConstraint| c@),
        ));
    }
    point
}

impl Problem {
    /// The initial tableau of `maximize objective subject to constraints`.
    pub fn new(
        objective_fn_coeffs: &Coefficients,
        functional_constraints: &Vec<UpperBoundConstraint>,
    ) -> (r: Self)
        requires
            input_wf(objective_fn_coeffs@, functional_constraints@),
            objective_fn_coeffs@.len() + functional_constraints@.len() <= usize::MAX,
        ensures
            r@ == initial_problem(
                rats_view(objective_fn_coeffs@),
                functional_constraints@.map_values(|c: UpperBoundConstraint| c@),
            ),
            problem_wf(r@),
    {
        let r = Self {
            objective_equation: initial_objective_equation(
                objective_fn_coeffs,
                functional_constraints.len(),
            ),
            rows: initial_rows(&functional_constraints, objective_fn_coeffs.len()),
            point: initial_point(objective_fn_coeffs, functional_constraints),
        };
        proof {
            let obj = rats_view(objective_fn_coeffs@);
            let cons = functional_constraints@.map_values(|c: UpperBoundConstraint| c@);
            let want = initial_problem(obj, cons);
            assert(r@.rows =~~= want.rows);
            assert(r@ =~~= want);
            assert forall|j: int| 0 <= j < r@.rows.len() implies eq_wf(
                (#[trigger] r@.rows[j]).eq,
            ) && r@.rows[j].eq.coeffs.len() == r@.objective.coeffs.len() && q_wf(r@.rows[j].ratio)
                && 0 <= r@.rows[j].basic < r@.objective.coeffs.len() by {
                assert(r@.rows[j] == r.rows@[j]@);
            }
        }
        r
    }
}

/// True exactly when no objective-row coefficient is negative.
pub fn is_optimal(problem: &Problem) -> (r: bool)
    requires
        forall|i: int|
            0 <= i < problem@.objective.coeffs.len() ==> q_wf(#[trigger] problem@.objective.coeffs[i]),
    ensures
        r == spec_is_optimal(problem@),
{
    let zero = Rat::from_int(0);
    let n = problem.objective_equation.coefficients.len();
    let mut i: usize = 0;
    while i < n
        invariant
            i <= n,
            n == problem@.objective.coeffs.len(),
            zero.q() == q_zero(),
            forall|t: int|
                0 <= t < n ==> q_wf(#[trigger] problem@.objective.coeffs[t]),
            forall|t: int| 0 <= t < i ==> q_le(q_zero(), #[trigger] problem@.objective.coeffs[t]),
        decreases n - i,
    {
        let c = problem.objective_equation.coefficients[i];
        proof {
            assert(problem@.objective.coeffs[i as int] == c.q());
        }
        if !rat_le(&zero, &c) {
            return false;
        }
        i = i + 1;
    }
    true
}

/// The entering variable: the column of the most negative objective-row
/// coefficient, the lowest such column on ties; none when the objective row
/// is empty.
pub fn pivot_variable(problem: &Problem) -> (r: Option<Variable>)
    requires
        forall|i: int|
            0 <= i < problem@.objective.coeffs.len() ==> q_wf(#[trigger] problem@.objective.coeffs[i]),
    ensures
        r is Some <==> spec_pivot_variable(problem@) is Some,
        r matches Some(v) ==> spec_pivot_variable(problem@) == Some(v as int),
        r matches Some(v) ==> v < problem@.objective.coeffs.len(),
{
    let n = problem.objective_equation.coefficients.len();
    if n == 0 {
        return None;
    }
    let ghost s = problem@.objective.coeffs;
    let mut best: usize = 0;
    let mut i: usize = 1;
    proof {
        assert(s.take(1).len() == 1);
        lemma_min_idx_bounds(s.take(1));
    }
    while i < n
        invariant
            1 <= i <= n,
            best < i,
            n == s.len(),
            s == problem@.objective.coeffs,
            forall|t: int| 0 <= t < n ==> q_wf(#[trigger] s[t]),
            best as int == min_idx(s.take(i as int)),
        decreases n - i,
    {
        let c = problem.objective_equation.coefficients[i];
        let b = problem.objective_equation.coefficients[best];
        proof {
            assert(s[i as int] == c.q());
            assert(s[best as int] == b.q());
            assert(s.take(i as int + 1).drop_last() =~= s.take(i as int));
            assert(s.take(i as int + 1)[i as int] == s[i as int]);
            lemma_min_idx_bounds(s.take(i as int));
        }
        if rat_lt(&c, &b) {
            best = i;
        }
        i = i + 1;
    }
    proof {
        assert(s.take(n as int) =~= s);
    }
    Some(best)
}

/// Indexing commutes with taking the view of a value sequence.
pub proof fn lemma_rats_view_index(s: Seq<Rat>, i: int)
    requires
        0 <= i < s.len(),
    ensures
        rats_view(s).len() == s.len(),
        rats_view(s)[i] == s[i].q(),
{
}

/// Indexing commutes with taking the view of a row sequence.
pub proof fn lemma_rows_view_index(rows: Seq<SimplexRow>, i: int)
    requires
        0 <= i < rows.len(),
    ensures
        rows.map_values(|r: SimplexRow| r@).len() == rows.len(),
        rows.map_values(|r: SimplexRow| r@)[i] == rows[i]@,
{
}

/// A placeholder row, used only to swap a real row out of the tableau and
/// back while it is edited.
fn scratch_row() -> SimplexRow {
    SimplexRow {
        basic_variable: 0,
        equation: Equation { coefficients: Vec::new(), constraint: Rat::from_int(0) },
        ratio: Rat::from_int(0),
    }
}

/// Recompute every row's ratio-test value for the entering column: the row
/// constant divided by the row's entry in that column, zero when that entry
/// is zero. Returns false when a quotient does not fit the machine word; the
/// tableau is then meaningless and the solve is abandoned.
pub fn set_ratios(problem: &mut Problem, pivot_column: Variable) -> (ok: bool)
    requires
        forall|j: int| 0 <= j < old(problem)@.rows.len() ==> eq_wf((#[trigger] old(problem)@.rows[j]).eq),
        forall|j: int|
            0 <= j < old(problem)@.rows.len() ==> pivot_column < (#[trigger] old(
                problem,
            )@.rows[j]).eq.coeffs.len(),
        eq_wf(old(problem)@.objective),
        forall|i: int| 0 <= i < old(problem)@.point.len() ==> q_wf(#[trigger] old(problem)@.point[i]),
    ensures
        ok ==> problem_equiv(final(problem)@, spec_set_ratios(old(problem)@, pivot_column as int)),
        ok && problem_wf(old(problem)@) ==> problem_wf(final(problem)@),
        (!ok ==> exists|j: int|
            0 <= j < old(problem)@.rows.len() && (#[trigger] old(
                problem,
            )@.rows[j]).eq.coeffs[pivot_column as int].0 != 0 && !crate::rational::q_fits(
                crate::rational::q_div(
                    old(problem)@.rows[j].eq.constant,
                    old(problem)@.rows[j].eq.coeffs[pivot_column as int],
                ),
            )),
        ok ==> final(problem)@.objective == old(problem)@.objective,
        ok ==> final(problem)@.point == old(problem)@.point,
        ok ==> final(problem)@.rows.len() == old(problem)@.rows.len(),
        ok ==> forall|j: int|
            0 <= j < old(problem)@.rows.len() ==> (#[trigger] final(problem)@.rows[j]).basic == old(
                problem,
            )@.rows[j].basic && final(problem)@.rows[j].eq == old(problem)@.rows[j].eq && q_wf(
                final(problem)@.rows[j].ratio,
            ) && q_eq(
                final(problem)@.rows[j].ratio,
                spec_row_ratio(old(problem)@.rows[j], pivot_column as int),
            ),
{
    let m = problem.rows.len();
    let mut tmp = scratch_row();
    let mut j: usize = 0;
    while j < m
        invariant
            j <= m,
            m == problem.rows@.len(),
            m == old(problem)@.rows.len(),
            problem@.objective == old(problem)@.objective,
            problem@.point == old(problem)@.point,
            forall|t: int|
                0 <= t < old(problem)@.rows.len() ==> eq_wf((#[trigger] old(problem)@.rows[t]).eq),
            forall|t: int|
                0 <= t < old(problem)@.rows.len() ==> pivot_column < (#[trigger] old(
                    problem,
                )@.rows[t]).eq.coeffs.len(),
            forall|t: int| j <= t < m ==> (#[trigger] problem.rows@[t])@ == old(problem)@.rows[t],
            forall|t: int|
                0 <= t < j ==> (#[trigger] problem.rows@[t])@.basic == old(
                    problem,
                )@.rows[t].basic && problem.rows@[t]@.eq == old(problem)@.rows[t].eq && q_wf(
                    problem.rows@[t]@.ratio,
                ) && q_eq(
                    problem.rows@[t]@.ratio,
                    spec_row_ratio(old(problem)@.rows[t], pivot_column as int),
                ),
        decreases m - j,
    {
        problem.rows.set_and_swap(j, &mut tmp);
        proof {
            assert(tmp@ == old(problem)@.rows[j as int]);
        }
        let c = tmp.equation.coefficients[pivot_column];
        proof {
            assert(c.q() == tmp@.eq.coeffs[pivot_column as int]);
            assert(c.q() == old(problem)@.rows[j as int].eq.coeffs[pivot_column as int]);
        }
        let newratio: Rat = if c.num == 0 {
            Rat::from_int(0)
        } else {
            match rat_div(&tmp.equation.constraint, &c) {
                Option::Some(r) => r,
                Option::None => {
                    proof {
                        assert(old(problem)@.rows[j as int].eq.coeffs[pivot_column as int].0 != 0
                            && !crate::rational::q_fits(crate::rational::q_div(
                            old(problem)@.rows[j as int].eq.constant,
                            old(problem)@.rows[j as int].eq.coeffs[pivot_column as int],
                        )));
                    }
                    return false;
                },
            }
        };
        tmp.ratio = newratio;
        problem.rows.set_and_swap(j, &mut tmp);
        proof {
            assert(problem.rows@[j as int]@.ratio == newratio.q());
            assert(problem.rows@[j as int]@.eq == old(problem)@.rows[j as int].eq);
        }
        j = j + 1;
    }
    proof {
        let want = spec_set_ratios(old(problem)@, pivot_column as int);
        assert forall|t: int| 0 <= t < m implies crate::model::row_equiv(
            #[trigger] problem@.rows[t],
            want.rows[t],
        ) && (#[trigger] problem@.rows[t]).basic == old(problem)@.rows[t].basic
            && problem@.rows[t].eq == old(problem)@.rows[t].eq && q_wf(problem@.rows[t].ratio)
            && q_eq(
            problem@.rows[t].ratio,
            spec_row_ratio(old(problem)@.rows[t], pivot_column as int),
        ) by {
            assert(problem@.rows[t] == problem.rows@[t]@);
            assert(want.rows[t] == (QRow {
                ratio: spec_row_ratio(old(problem)@.rows[t], pivot_column as int),
                ..old(problem)@.rows[t]
            }));
            if old(problem)@.rows[t].eq.coeffs[pivot_column as int].0 != 0 {
                crate::rational::lemma_q_div_wf(
                    old(problem)@.rows[t].eq.constant,
                    old(problem)@.rows[t].eq.coeffs[pivot_column as int],
                );
            }
        }
        assert(problem_equiv(problem@, want));
    }
    true
}

/// The leaving row: among rows whose ratio is strictly positive, the first
/// row with the least ratio; none when no row qualifies, which signals an
/// unbounded direction.
pub fn pivot_row_idx(problem: &Problem) -> (r: Option<usize>)
    requires
        forall|j: int| 0 <= j < problem@.rows.len() ==> q_wf((#[trigger] problem@.rows[j]).ratio),
    ensures
        r is Some <==> spec_pivot_row(problem@.rows) is Some,
        r matches Some(i) ==> spec_pivot_row(problem@.rows) == Some(i as int) && i
            < problem@.rows.len(),
{
    let zero = Rat::from_int(0);
    let m = problem.rows.len();
    let mut best: Option<usize> = None;
    let mut j: usize = 0;
    proof {
        assert(problem@.rows.take(0) =~= Seq::<QRow>::empty());
    }
    while j < m
        invariant
            j <= m,
            m == problem@.rows.len(),
            m == problem.rows@.len(),
            zero.q() == q_zero(),
            forall|t: int| 0 <= t < m ==> q_wf((#[trigger] problem@.rows[t]).ratio),
            best is Some <==> spec_pivot_row(problem@.rows.take(j as int)) is Some,
            best matches Some(b) ==> spec_pivot_row(problem@.rows.take(j as int)) == Some(b as int)
                && b < j,
        decreases m - j,
    {
        proof {
            assert(problem@.rows[j as int] == problem.rows@[j as int]@);
            assert(problem@.rows.take(j as int + 1).drop_last() =~= problem@.rows.take(j as int));
            assert(problem@.rows.take(j as int + 1)[j as int] == problem@.rows[j as int]);
        }
        let ratio = problem.rows[j].ratio;
        if rat_lt(&zero, &ratio) {
            match best {
                Option::None => {
                    best = Some(j);
                },
                Option::Some(b) => {
                    proof {
                        assert(problem@.rows[b as int] == problem.rows@[b as int]@);
                    }
                    let best_ratio = problem.rows[b].ratio;
                    if rat_lt(&ratio, &best_ratio) {
                        best = Some(j);
                    }
                },
            }
        }
        j = j + 1;
    }
    proof {
        assert(problem@.rows.take(m as int) =~= problem@.rows);
    }
    best
}

/// Hand row `var_idx` to the entering variable `new_var`.
pub fn set_basic_variable(problem: &mut Problem, var_idx: usize, new_var: usize)
    requires
        var_idx < old(problem)@.rows.len(),
    ensures
        final(problem)@ == with_row_basic(old(problem)@, var_idx as int, new_var as int),
        problem_wf(old(problem)@) && new_var < old(problem)@.objective.coeffs.len()
            ==> problem_wf(final(problem)@),
{
    let mut tmp = scratch_row();
    proof {
        assert forall|t: int| 0 <= t < problem.rows@.len() implies #[trigger] problem@.rows[t]
            == problem.rows@[t]@ by {}
    }
    problem.rows.set_and_swap(var_idx, &mut tmp);
    tmp.basic_variable = new_var;
    problem.rows.set_and_swap(var_idx, &mut tmp);
    proof {
        assert forall|t: int| 0 <= t < problem.rows@.len() implies #[trigger] problem@.rows[t]
            == problem.rows@[t]@ by {}
        let want = with_row_basic(old(problem)@, var_idx as int, new_var as int);
        assert(problem@.rows =~= want.rows);
        assert(problem@ =~~= want);
    }
}

/// Divide the pivot row by its entry in the pivot column and force that
/// entry to exactly one. Returns false when a quotient does not fit the
/// machine word.
pub fn normalize_equation(problem: &mut Problem, equation_idx: usize, variable: Variable) -> (ok:
    bool)
    requires
        equation_idx < old(problem)@.rows.len(),
        variable < old(problem)@.rows[equation_idx as int].eq.coeffs.len(),
        eq_wf(old(problem)@.rows[equation_idx as int].eq),
        old(problem)@.rows[equation_idx as int].eq.coeffs[variable as int].0 != 0,
    ensures
        ok ==> final(problem)@.objective == old(problem)@.objective,
        ok && problem_wf(old(problem)@) ==> problem_wf(final(problem)@),
        ok ==> final(problem)@.point == old(problem)@.point,
        ok ==> final(problem)@.rows.len() == old(problem)@.rows.len(),
        ok ==> forall|t: int|
            0 <= t < old(problem)@.rows.len() && t != equation_idx
                ==> (#[trigger] final(problem)@.rows[t]) == old(problem)@.rows[t],
        ok ==> final(problem)@.rows[equation_idx as int].basic == old(problem)@.rows[equation_idx as int].basic,
        ok ==> final(problem)@.rows[equation_idx as int].ratio == old(problem)@.rows[equation_idx as int].ratio,
        ok ==> equation_equiv(
            final(problem)@.rows[equation_idx as int].eq,
            spec_normalize_eq(old(problem)@.rows[equation_idx as int].eq, variable as int),
        ),
        ok ==> eq_wf(final(problem)@.rows[equation_idx as int].eq),
        ok ==> final(problem)@.rows[equation_idx as int].eq.coeffs.len() == old(
            problem,
        )@.rows[equation_idx as int].eq.coeffs.len(),
        (!ok ==> !crate::rational::q_fits(
            crate::rational::q_div(
                old(problem)@.rows[equation_idx as int].eq.constant,
                old(problem)@.rows[equation_idx as int].eq.coeffs[variable as int],
            ),
        ) || exists|i: int|
            0 <= i < old(problem)@.rows[equation_idx as int].eq.coeffs.len() && i != variable
                && !crate::rational::q_fits(
                crate::rational::q_div(
                    (#[trigger] old(problem)@.rows[equation_idx as int].eq.coeffs[i]),
                    old(problem)@.rows[equation_idx as int].eq.coeffs[variable as int],
                ),
            )),
{
    let mut tmp = scratch_row();
    proof {
        assert forall|t: int| 0 <= t < problem.rows@.len() implies #[trigger] problem@.rows[t]
            == problem.rows@[t]@ by {}
    }
    problem.rows.set_and_swap(equation_idx, &mut tmp);
    let ghost orig = tmp@;
    proof {
        assert(orig == old(problem)@.rows[equation_idx as int]);
        assert forall|t: int| 0 <= t < tmp.equation.coefficients@.len() implies (
        #[trigger] tmp.equation.coefficients@[t]).q() == orig.eq.coeffs[t] by {
            lemma_rats_view_index(tmp.equation.coefficients@, t);
        }
    }
    let coeff = tmp.equation.coefficients[variable];
    let var_count = tmp.equation.coefficients.len();
    let mut var: usize = 0;
    while var < var_count
        invariant
            var <= var_count,
            var_count == tmp.equation.coefficients@.len(),
            variable < var_count,
            orig == old(problem)@.rows[equation_idx as int],
            tmp.basic_variable as int == orig.basic,
            tmp.ratio.q() == orig.ratio,
            eq_wf(orig.eq),
            orig.eq.coeffs.len() == var_count,
            coeff.q() == orig.eq.coeffs[variable as int],
            coeff.wf(),
            coeff.num != 0,
            forall|t: int|
                var <= t < var_count ==> (#[trigger] tmp.equation.coefficients@[t]).q()
                    == orig.eq.coeffs[t],
            forall|t: int|
                var <= t < var_count ==> (#[trigger] tmp.equation.coefficients@[t]).wf(),
            forall|t: int|
                0 <= t < var ==> (#[trigger] tmp.equation.coefficients@[t]).wf() && q_eq(
                    tmp.equation.coefficients@[t].q(),
                    spec_normalize_eq(orig.eq, variable as int).coeffs[t],
                ),
            tmp.equation.constraint.q() == orig.eq.constant,
            tmp.equation.constraint.wf(),
        decreases var_count - var,
    {
        if var == variable {
            tmp.equation.coefficients.set(var, Rat::from_int(1));
            proof {
                assert(q_eq((1int, 1int), spec_normalize_eq(orig.eq, variable as int).coeffs[var as int]));
            }
        } else {
            let c = tmp.equation.coefficients[var];
            match rat_div(&c, &coeff) {
                Option::Some(d) => {
                    tmp.equation.coefficients.set(var, d);
                },
                Option::None => {
                    proof {
                        assert(0 <= var < orig.eq.coeffs.len() && var != variable
                            && !crate::rational::q_fits(
                            crate::rational::q_div(
                                orig.eq.coeffs[var as int],
                                orig.eq.coeffs[variable as int],
                            ),
                        ));
                    }
                    return false;
                },
            }
        }
        var = var + 1;
    }
    match rat_div(&tmp.equation.constraint, &coeff) {
        Option::Some(d) => {
            tmp.equation.constraint = d;
        },
        Option::None => {
            proof {
                assert(!crate::rational::q_fits(
                    crate::rational::q_div(
                        orig.eq.constant,
                        orig.eq.coeffs[variable as int],
                    ),
                ));
            }
            return false;
        },
    }
    let ghost done = tmp@;
    let ghost done_coeffs = tmp.equation.coefficients@;
    problem.rows.set_and_swap(equation_idx, &mut tmp);
    proof {
        assert forall|t: int| 0 <= t < problem.rows@.len() implies #[trigger] problem@.rows[t]
            == problem.rows@[t]@ by {
            lemma_rows_view_index(problem.rows@, t);
        }
        assert(problem@.rows[equation_idx as int] == done);
        let want = spec_normalize_eq(orig.eq, variable as int);
        assert forall|t: int| 0 <= t < done.eq.coeffs.len() implies q_eq(
            #[trigger] done.eq.coeffs[t],
            want.coeffs[t],
        ) && q_wf(done.eq.coeffs[t]) && q_wf(want.coeffs[t]) by {
            lemma_rats_view_index(done_coeffs, t);
            if t != variable {
                crate::rational::lemma_q_div_wf(
                    orig.eq.coeffs[t],
                    orig.eq.coeffs[variable as int],
                );
            }
        }
        crate::rational::lemma_q_div_wf(orig.eq.constant, orig.eq.coeffs[variable as int]);
        assert(equation_equiv(done.eq, want));
        assert(eq_wf(done.eq));
        if problem_wf(old(problem)@) {
            assert forall|t: int| 0 <= t < problem.rows@.len() implies eq_wf(
                (#[trigger] problem@.rows[t]).eq,
            ) && problem@.rows[t].eq.coeffs.len() == problem@.objective.coeffs.len() && q_wf(
                problem@.rows[t].ratio,
            ) && 0 <= problem@.rows[t].basic < problem@.objective.coeffs.len() by {
                if t != equation_idx {
                    assert(problem@.rows[t] == old(problem)@.rows[t]);
                    assert(eq_wf(old(problem)@.rows[t].eq));
                } else {
                    assert(eq_wf(old(problem)@.rows[t].eq));
                }
            }
            assert(problem_wf(problem@));
        }
    }
    true
}

/// Subtract `factor` times the (normalized) pivot equation from this
/// equation, where `factor` is this equation's entry in the pivot column.
/// Returns false when a result does not fit the machine word.
pub fn reduce_equation(equation: &mut Equation, pivot_equation: &Equation, variable: Variable) -> (ok:
    bool)
    requires
        variable < old(equation)@.coeffs.len(),
        old(equation)@.coeffs.len() <= pivot_equation@.coeffs.len(),
        eq_wf(old(equation)@),
        eq_wf(pivot_equation@),
    ensures
        ok ==> equation_equiv(
            final(equation)@,
            spec_reduce_eq(old(equation)@, pivot_equation@, variable as int),
        ),
        ok ==> eq_wf(final(equation)@),
        ok ==> final(equation)@.coeffs.len() == old(equation)@.coeffs.len(),
        crate::model::reduce_eq_within(old(equation)@, pivot_equation@, variable as int) ==> ok,
{
    let factor = equation.coefficients[variable];
    let ghost orig = equation@;
    proof {
        assert forall|t: int| 0 <= t < equation.coefficients@.len() implies (
        #[trigger] equation.coefficients@[t]).q() == orig.coeffs[t] by {
            lemma_rats_view_index(equation.coefficients@, t);
        }
        assert forall|t: int| 0 <= t < pivot_equation.coefficients@.len() implies (
        #[trigger] pivot_equation.coefficients@[t]).q() == pivot_equation@.coeffs[t] by {
            lemma_rats_view_index(pivot_equation.coefficients@, t);
        }
    }
    let n = equation.coefficients.len();
    let mut k: usize = 0;
    while k < n
        invariant
            k <= n,
            n == equation.coefficients@.len(),
            n == orig.coeffs.len(),
            n <= pivot_equation@.coeffs.len(),
            variable < n,
            orig == old(equation)@,
            eq_wf(orig),
            eq_wf(pivot_equation@),
            factor.q() == orig.coeffs[variable as int],
            factor.wf(),
            forall|t: int|
                k <= t < n ==> (#[trigger] equation.coefficients@[t]).q() == orig.coeffs[t],
            forall|t: int| k <= t < n ==> (#[trigger] equation.coefficients@[t]).wf(),
            forall|t: int|
                0 <= t < k ==> (#[trigger] equation.coefficients@[t]).wf() && q_eq(
                    equation.coefficients@[t].q(),
                    spec_reduce_eq(orig, pivot_equation@, variable as int).coeffs[t],
                ),
            equation.constraint.q() == orig.constant,
            equation.constraint.wf(),
        decreases n - k,
    {
        proof {
            lemma_rats_view_index(pivot_equation.coefficients@, k as int);
        }
        let p = pivot_equation.coefficients[k];
        let c = equation.coefficients[k];
        let t = match rat_mul(&factor, &p) {
            Option::Some(t) => t,
            Option::None => {
                proof {
                    if crate::model::reduce_eq_within(orig, pivot_equation@, variable as int) {
                        assert(crate::model::reduce_term_within(
                            orig.coeffs[k as int],
                            orig.coeffs[variable as int],
                            pivot_equation@.coeffs[k as int],
                        ));
                        crate::rational::lemma_q_mul_congr(factor.q(), p.q(), factor.q(), p.q());
                        crate::rational::lemma_q_fits_self(crate::rational::q_mul(
                            factor.q(),
                            p.q(),
                        ));
                        assert(false);
                    }
                }
                return false;
            },
        };
        let d = match rat_sub(&c, &t) {
            Option::Some(d) => d,
            Option::None => {
                proof {
                    if crate::model::reduce_eq_within(orig, pivot_equation@, variable as int) {
                        assert(crate::model::reduce_term_within(
                            orig.coeffs[k as int],
                            orig.coeffs[variable as int],
                            pivot_equation@.coeffs[k as int],
                        ));
                        crate::rational::lemma_sub_within_mono(
                            c.q(),
                            t.q(),
                            crate::rational::int_abs(factor.q().0 * p.q().0),
                            factor.q().1 * p.q().1,
                        );
                        assert(false);
                    }
                }
                return false;
            },
        };
        equation.coefficients.set(k, d);
        proof {
            crate::rational::lemma_q_mul_congr(
                factor.q(),
                p.q(),
                factor.q(),
                pivot_equation@.coeffs[k as int],
            );
            crate::rational::lemma_q_add_congr(
                c.q(),
                t.q(),
                orig.coeffs[k as int],
                crate::rational::q_mul(factor.q(), pivot_equation@.coeffs[k as int]),
            );
            crate::rational::lemma_q_eq_trans(
                d.q(),
                crate::rational::q_sub(c.q(), t.q()),
                crate::rational::q_sub(
                    orig.coeffs[k as int],
                    crate::rational::q_mul(factor.q(), pivot_equation@.coeffs[k as int]),
                ),
            );
        }
        k = k + 1;
    }
    let t = match rat_mul(&factor, &pivot_equation.constraint) {
        Option::Some(t) => t,
        Option::None => {
            proof {
                if crate::model::reduce_eq_within(orig, pivot_equation@, variable as int) {
                    assert(crate::model::reduce_term_within(
                        orig.constant,
                        orig.coeffs[variable as int],
                        pivot_equation@.constant,
                    ));
                    crate::rational::lemma_q_mul_congr(
                        factor.q(),
                        pivot_equation.constraint.q(),
                        factor.q(),
                        pivot_equation.constraint.q(),
                    );
                    crate::rational::lemma_q_fits_self(crate::rational::q_mul(
                        factor.q(),
                        pivot_equation@.constant,
                    ));
                    assert(false);
                }
            }
            return false;
        },
    };
    let d = match rat_sub(&equation.constraint, &t) {
        Option::Some(d) => d,
        Option::None => {
            proof {
                if crate::model::reduce_eq_within(orig, pivot_equation@, variable as int) {
                    assert(crate::model::reduce_term_within(
                        orig.constant,
                        orig.coeffs[variable as int],
                        pivot_equation@.constant,
                    ));
                    crate::rational::lemma_sub_within_mono(
                        equation.constraint.q(),
                        t.q(),
                        crate::rational::int_abs(factor.q().0 * pivot_equation@.constant.0),
                        factor.q().1 * pivot_equation@.constant.1,
                    );
                    assert(false);
                }
            }
            return false;
        },
    };
    proof {
        crate::rational::lemma_q_mul_congr(
            factor.q(),
            pivot_equation.constraint.q(),
            factor.q(),
            pivot_equation@.constant,
        );
        crate::rational::lemma_q_add_congr(
            equation.constraint.q(),
            t.q(),
            orig.constant,
            crate::rational::q_mul(factor.q(), pivot_equation@.constant),
        );
        crate::rational::lemma_q_eq_trans(
            d.q(),
            crate::rational::q_sub(equation.constraint.q(), t.q()),
            crate::rational::q_sub(
                orig.constant,
                crate::rational::q_mul(factor.q(), pivot_equation@.constant),
            ),
        );
    }
    equation.constraint = d;
    proof {
        let want = spec_reduce_eq(orig, pivot_equation@, variable as int);
        assert forall|t: int| 0 <= t < equation.coefficients@.len() implies q_eq(
            #[trigger] equation@.coeffs[t],
            want.coeffs[t],
        ) && q_wf(equation@.coeffs[t]) && q_wf(want.coeffs[t]) by {
            lemma_rats_view_index(equation.coefficients@, t);
            crate::rational::lemma_q_mul_congr(
                factor.q(),
                pivot_equation@.coeffs[t],
                factor.q(),
                pivot_equation@.coeffs[t],
            );
            crate::rational::lemma_q_add_congr(
                orig.coeffs[t],
                crate::rational::q_mul(factor.q(), pivot_equation@.coeffs[t]),
                orig.coeffs[t],
                crate::rational::q_mul(factor.q(), pivot_equation@.coeffs[t]),
            );
        }
        crate::rational::lemma_q_mul_congr(
            factor.q(),
            pivot_equation@.constant,
            factor.q(),
            pivot_equation@.constant,
        );
        crate::rational::lemma_q_add_congr(
            orig.constant,
            crate::rational::q_mul(factor.q(), pivot_equation@.constant),
            orig.constant,
            crate::rational::q_mul(factor.q(), pivot_equation@.constant),
        );
        assert(equation_equiv(equation@, want));
        assert(eq_wf(equation@));
    }
    true
}

/// Reduce every row but the pivot row, and the objective row, against the
/// normalized pivot row, eliminating the entering variable from them.
/// Returns false when a result does not fit the machine word.
pub fn reduce_equations(problem: &mut Problem, pivot_row_idx: usize, variable: Variable) -> (ok:
    bool)
    requires
        pivot_row_idx < old(problem)@.rows.len(),
        variable < old(problem)@.objective.coeffs.len(),
        eq_wf(old(problem)@.objective),
        forall|j: int|
            0 <= j < old(problem)@.rows.len() ==> eq_wf((#[trigger] old(problem)@.rows[j]).eq),
        forall|j: int|
            0 <= j < old(problem)@.rows.len() ==> (#[trigger] old(problem)@.rows[j]).eq.coeffs.len()
                == old(problem)@.objective.coeffs.len(),
        forall|j: int| 0 <= j < old(problem)@.rows.len() ==> q_wf((#[trigger] old(problem)@.rows[j]).ratio),
        forall|i: int| 0 <= i < old(problem)@.point.len() ==> q_wf(#[trigger] old(problem)@.point[i]),
    ensures
        ok ==> final(problem)@.point == old(problem)@.point,
        ok && problem_wf(old(problem)@) ==> problem_wf(final(problem)@),
        ok ==> final(problem)@.rows.len() == old(problem)@.rows.len(),
        ok ==> final(problem)@.rows[pivot_row_idx as int] == old(problem)@.rows[pivot_row_idx as int],
        ok ==> forall|t: int|
            0 <= t < old(problem)@.rows.len() && t != pivot_row_idx
                ==> (#[trigger] final(problem)@.rows[t]).basic == old(problem)@.rows[t].basic && final(problem)@.rows[t].ratio
                == old(problem)@.rows[t].ratio && equation_equiv(
                final(problem)@.rows[t].eq,
                spec_reduce_eq(
                    old(problem)@.rows[t].eq,
                    old(problem)@.rows[pivot_row_idx as int].eq,
                    variable as int,
                ),
            ) && eq_wf(final(problem)@.rows[t].eq) && final(problem)@.rows[t].eq.coeffs.len() == old(
                problem,
            )@.rows[t].eq.coeffs.len(),
        ok ==> equation_equiv(
            final(problem)@.objective,
            spec_reduce_eq(
                old(problem)@.objective,
                old(problem)@.rows[pivot_row_idx as int].eq,
                variable as int,
            ),
        ),
        ok ==> eq_wf(final(problem)@.objective),
        ok ==> final(problem)@.objective.coeffs.len() == old(problem)@.objective.coeffs.len(),
        ok ==> problem_equiv(
            final(problem)@,
            spec_reduce_all(old(problem)@, pivot_row_idx as int, variable as int),
        ),
        ((forall|j: int|
            0 <= j < old(problem)@.rows.len() && j != pivot_row_idx
                ==> crate::model::reduce_eq_within(
                (#[trigger] old(problem)@.rows[j]).eq,
                old(problem)@.rows[pivot_row_idx as int].eq,
                variable as int,
            )) && crate::model::reduce_eq_within(
            old(problem)@.objective,
            old(problem)@.rows[pivot_row_idx as int].eq,
            variable as int,
        ) ==> ok),
{
    let m = problem.rows.len();
    let mut pivot_tmp = scratch_row();
    proof {
        assert forall|t: int| 0 <= t < problem.rows@.len() implies (#[trigger] problem.rows@[t])@
            == old(problem)@.rows[t] by {}
    }
    problem.rows.set_and_swap(pivot_row_idx, &mut pivot_tmp);
    proof {
        assert(pivot_tmp@ == old(problem)@.rows[pivot_row_idx as int]);
    }
    let mut tmp = scratch_row();
    let mut j: usize = 0;
    while j < m
        invariant
            j <= m,
            m == problem.rows@.len(),
            m == old(problem)@.rows.len(),
            pivot_row_idx < m,
            variable < old(problem)@.objective.coeffs.len(),
            pivot_tmp@ == old(problem)@.rows[pivot_row_idx as int],
            eq_wf(old(problem)@.objective),
            forall|t: int|
                0 <= t < old(problem)@.rows.len() ==> eq_wf((#[trigger] old(problem)@.rows[t]).eq),
            forall|t: int|
                0 <= t < old(problem)@.rows.len() ==> (#[trigger] old(
                    problem,
                )@.rows[t]).eq.coeffs.len() == old(problem)@.objective.coeffs.len(),
            forall|t: int|
                0 <= t < old(problem)@.rows.len() ==> q_wf((#[trigger] old(problem)@.rows[t]).ratio),
            forall|i: int|
                0 <= i < old(problem)@.point.len() ==> q_wf(#[trigger] old(problem)@.point[i]),
            problem@.objective == old(problem)@.objective,
            problem@.point == old(problem)@.point,
            forall|t: int|
                j <= t < m && t != pivot_row_idx ==> (#[trigger] problem.rows@[t])@ == old(
                    problem,
                )@.rows[t],
            forall|t: int|
                0 <= t < j && t != pivot_row_idx ==> (#[trigger] problem.rows@[t])@.basic == old(
                    problem,
                )@.rows[t].basic && problem.rows@[t]@.ratio == old(problem)@.rows[t].ratio
                    && equation_equiv(
                    problem.rows@[t]@.eq,
                    spec_reduce_eq(
                        old(problem)@.rows[t].eq,
                        old(problem)@.rows[pivot_row_idx as int].eq,
                        variable as int,
                    ),
                ) && eq_wf(problem.rows@[t]@.eq) && problem.rows@[t]@.eq.coeffs.len() == old(
                    problem,
                )@.rows[t].eq.coeffs.len(),
        decreases m - j,
    {
        if j != pivot_row_idx {
            problem.rows.set_and_swap(j, &mut tmp);
            proof {
                assert(tmp@ == old(problem)@.rows[j as int]);
            }
            let ok = reduce_equation(&mut tmp.equation, &pivot_tmp.equation, variable);
            if !ok {
                proof {
                    assert(!crate::model::reduce_eq_within(
                        old(problem)@.rows[j as int].eq,
                        old(problem)@.rows[pivot_row_idx as int].eq,
                        variable as int,
                    ));
                }
                return false;
            }
            problem.rows.set_and_swap(j, &mut tmp);
        }
        j = j + 1;
    }
    let ok = reduce_equation(&mut problem.objective_equation, &pivot_tmp.equation, variable);
    if !ok {
        proof {
            assert(!crate::model::reduce_eq_within(
                old(problem)@.objective,
                old(problem)@.rows[pivot_row_idx as int].eq,
                variable as int,
            ));
        }
        return false;
    }
    problem.rows.set_and_swap(pivot_row_idx, &mut pivot_tmp);
    proof {
        let want = spec_reduce_all(old(problem)@, pivot_row_idx as int, variable as int);
        assert forall|t: int| 0 <= t < m implies #[trigger] problem@.rows[t]
            == problem.rows@[t]@ by {}
        assert(problem@.rows[pivot_row_idx as int] == old(problem)@.rows[pivot_row_idx as int]);
        assert forall|t: int| 0 <= t < m implies crate::model::row_equiv(
            #[trigger] problem@.rows[t],
            want.rows[t],
        ) by {
            if t != pivot_row_idx {
                assert(problem@.rows[t] == problem.rows@[t]@);
            }
        }
        assert(problem_equiv(problem@, want));
    }
    true
}

/// Recompute the point from the rows: zero for every nonbasic variable, the
/// row's constant for its basic variable.
pub fn set_new_point(problem: &mut Problem)
    requires
        forall|j: int|
            0 <= j < old(problem)@.rows.len() ==> 0 <= (#[trigger] old(problem)@.rows[j]).basic
                < old(problem)@.point.len(),
    ensures
        final(problem)@ == with_new_point(old(problem)@),
        problem_wf(old(problem)@) ==> problem_wf(final(problem)@),
        final(problem)@.point.len() == old(problem)@.point.len(),
{
    let len = problem.point.len();
    let mut newpoint: Vec<Rat> = Vec::new();
    let mut i: usize = 0;
    while i < len
        invariant
            i <= len,
            newpoint@.len() == i,
            forall|t: int| 0 <= t < i ==> (#[trigger] newpoint@[t]).q() == q_zero(),
            rats_wf(newpoint@),
        decreases len - i,
    {
        newpoint.push(Rat::from_int(0));
        i = i + 1;
    }
    let ghost zeros = Seq::new(len as nat, |t: int| q_zero());
    proof {
        assert(rats_view(newpoint@) =~= zeros);
    }
    let m = problem.rows.len();
    let mut j: usize = 0;
    while j < m
        invariant
            j <= m,
            m == problem.rows@.len(),
            problem@ == old(problem)@,
            len == old(problem)@.point.len(),
            zeros == Seq::new(len as nat, |t: int| q_zero()),
            newpoint@.len() == len,
            forall|t: int|
                0 <= t < old(problem)@.rows.len() ==> 0 <= (#[trigger] old(problem)@.rows[t]).basic
                    < len,
            rats_view(newpoint@) == crate::model::apply_rows(zeros, old(problem)@.rows.take(j as int)),
            problem_wf(old(problem)@) ==> rats_wf(newpoint@),
        decreases m - j,
    {
        proof {
            assert(problem.rows@[j as int]@ == old(problem)@.rows[j as int]);
            assert(old(problem)@.rows.take(j as int + 1).drop_last() =~= old(problem)@.rows.take(
                j as int,
            ));
            assert(old(problem)@.rows.take(j as int + 1).last() == old(problem)@.rows[j as int]);
        }
        let basic = problem.rows[j].basic_variable;
        let constant = problem.rows[j].equation.constraint;
        let ghost before = newpoint@;
        newpoint.set(basic, constant);
        proof {
            assert(rats_view(newpoint@) =~= rats_view(before).update(
                basic as int,
                constant.q(),
            ));
        }
        j = j + 1;
    }
    proof {
        assert(old(problem)@.rows.take(m as int) =~= old(problem)@.rows);
    }
    let ghost newpoint_snap = newpoint@;
    problem.point = newpoint;
    proof {
        assert(problem@ =~~= with_new_point(old(problem)@));
        if problem_wf(old(problem)@) {
            assert forall|t: int| 0 <= t < problem@.point.len() implies q_wf(
                #[trigger] problem@.point[t],
            ) by {
                assert(problem@.point[t] == newpoint_snap[t].q());
                assert(newpoint_snap[t].wf());
            }
            assert(problem_wf(problem@));
        }
    }
}


/// An exact copy of a value vector.
fn copy_rats(v: &Vec<Value>) -> (r: Vec<Value>)
    ensures
        r@ == v@,
{
    let n = v.len();
    let mut out: Vec<Rat> = Vec::new();
    let mut i: usize = 0;
    while i < n
        invariant
            i <= n,
            n == v@.len(),
            out@.len() == i,
            forall|t: int| 0 <= t < i ==> #[trigger] out@[t] == v@[t],
        decreases n - i,
    {
        out.push(v[i]);
        i = i + 1;
    }
    proof {
        assert(out@ =~= v@);
    }
    out
}

/// Run the pivot engine to termination: report the initial tableau to the
/// observer, then pivot while a negative objective-row coefficient remains,
/// reporting each post-pivot tableau. The returned point is the tableau's
/// point at the optimal (or stalled-unbounded) state, with one slot per
/// structural and slack variable. `None` means a machine limit was hit (a
/// value outgrew the word size, or the pivot budget ran out) and no point is
/// returned.
pub fn solve(problem: Problem, observer: &mut impl ProblemObserver) -> (r: Option<Vec<Value>>)
    requires
        problem_wf(problem@),
    ensures
        r matches Some(v) ==> v@.len() == problem@.point.len(),
        r matches Some(v) ==> solve_result_matches(problem@, rats_view(v@)),
        problem@.rows.len() == 0 ==> r is Some,
        spec_is_optimal(problem@) ==> r is Some,
{
    let ghost init = problem@;
    let mut problem = problem;
    observer.observe(problem.clone());
    let ghost mut qcur = init;
    let ghost mut steps: nat = 0;
    proof {
        lemma_problem_equiv_refl(init);
    }
    let mut fuel: u64 = u64::MAX;
    let mut outcome: Option<Vec<Value>> = None;
    let mut running: bool = true;
    while running && fuel > 0
        invariant
            problem_wf(init),
            running ==> problem_wf(problem@),
            running ==> problem@.point.len() == init.point.len(),
            running ==> problem@.rows.len() == init.rows.len(),
            fuel == u64::MAX && running ==> problem@ == init,
            (init.rows.len() == 0 || spec_is_optimal(init)) && running ==> fuel == u64::MAX,
            (init.rows.len() == 0 || spec_is_optimal(init)) && !running ==> outcome is Some,
            running ==> problem_equiv(problem@, qcur),
            running ==> problem_wf(qcur),
            running ==> iter_pivots(init, steps) == Some(qcur),
            running ==> outcome is None,
            !running ==> (match outcome {
                Option::Some(v) => v@.len() == init.point.len() && solve_result_matches(
                    init,
                    rats_view(v@),
                ),
                Option::None => true,
            }),
        decreases fuel,
    {
        fuel = fuel - 1;
        if is_optimal(&problem) {
            proof {
                lemma_is_optimal_congr(problem@, qcur);
                assert(spec_step(qcur) == QStep::Optimal(qcur));
                lemma_iter_terminal(init, steps, qcur, qcur.point);
                assert(run_gives(init, steps + 1, rats_view(problem.point@)));
            }
            outcome = Some(copy_rats(&problem.point));
            running = false;
        } else {
            let ghost q0 = problem@;
            let pivot_col: Variable = match pivot_variable(&problem) {
                Option::Some(v) => v,
                Option::None => {
                    proof {
                        assert(false);
                    }
                    0
                },
            };
            proof {
                lemma_is_optimal_congr(q0, qcur);
                lemma_pivot_variable_congr(q0, qcur);
                assert(spec_pivot_variable(qcur) == Some(pivot_col as int));
                assert forall|j: int| 0 <= j < q0.rows.len() implies pivot_col < (#[trigger] q0.rows[j]).eq.coeffs.len() by {}
            }
            if !set_ratios(&mut problem, pivot_col) {
                running = false;
            } else {
                let ghost e1 = problem@;
                let ghost i1 = spec_set_ratios(qcur, pivot_col as int);
                proof {
                    lemma_set_ratios_congr(q0, qcur, pivot_col as int);
                    lemma_problem_equiv_trans(e1, spec_set_ratios(q0, pivot_col as int), i1);
                    lemma_equiv_wf(e1, i1);
                }
                match pivot_row_idx(&problem) {
                    Option::None => {
                        proof {
                            lemma_pivot_row_congr(e1.rows, i1.rows);
                            assert(spec_step(qcur) == QStep::Stalled(i1));
                            lemma_iter_terminal(init, steps, qcur, i1.point);
                            assert(run_gives(init, steps + 1, rats_view(problem.point@)));
                        }
                        outcome = Some(copy_rats(&problem.point));
                        running = false;
                    },
                    Option::Some(pivot_row) => {
                        proof {
                            lemma_pivot_row_congr(e1.rows, i1.rows);
                            crate::model::lemma_pivot_row_some(e1.rows);
                            // the selected row's entry in the pivot column is not zero
                            if q0.rows[pivot_row as int].eq.coeffs[pivot_col as int].0 == 0 {
                                crate::rational::lemma_q_le_congr(
                                    q_zero(),
                                    e1.rows[pivot_row as int].ratio,
                                    q_zero(),
                                    q_zero(),
                                );
                                assert(false);
                            }
                        }
                        set_basic_variable(&mut problem, pivot_row, pivot_col);
                        let ghost e2 = problem@;
                        let ghost i2 = with_row_basic(i1, pivot_row as int, pivot_col as int);
                        proof {
                            lemma_with_row_basic_congr(e1, i1, pivot_row as int, pivot_col as int);
                            assert(e2.rows[pivot_row as int].eq == q0.rows[pivot_row as int].eq);
                            assert(e2.rows[pivot_row as int].eq.coeffs[pivot_col as int].0 != 0);
                        }
                        if !normalize_equation(&mut problem, pivot_row, pivot_col) {
                            running = false;
                        } else {
                            let ghost e3 = problem@;
                            let ghost w3 = with_row_eq(
                                e2,
                                pivot_row as int,
                                spec_normalize_eq(e2.rows[pivot_row as int].eq, pivot_col as int),
                            );
                            let ghost i3 = with_row_eq(
                                i2,
                                pivot_row as int,
                                spec_normalize_eq(i2.rows[pivot_row as int].eq, pivot_col as int),
                            );
                            proof {
                                assert(problem_wf(e2));
                                assert(problem_wf(e3));
                                // the executable state is the with_row_eq form, up to values
                                assert forall|t: int|
                                    #![trigger e3.rows[t]]
                                    #![trigger w3.rows[t]]
                                    0 <= t < e3.rows.len() implies crate::model::row_equiv(
                                    e3.rows[t],
                                    w3.rows[t],
                                ) by {
                                    if t != pivot_row {
                                        assert(e3.rows[t] == e2.rows[t]);
                                        assert(w3.rows[t] == e2.rows[t]);
                                        assert(eq_wf(e2.rows[t].eq));
                                    } else {
                                        assert(w3.rows[t] == (QRow {
                                            eq: spec_normalize_eq(
                                                e2.rows[pivot_row as int].eq,
                                                pivot_col as int,
                                            ),
                                            ..e2.rows[pivot_row as int]
                                        }));
                                    }
                                }
                                assert(problem_equiv(e3, w3));
                                assert(crate::model::row_equiv(
                                    e2.rows[pivot_row as int],
                                    i2.rows[pivot_row as int],
                                ));
                                crate::model::lemma_normalize_congr(
                                    e2.rows[pivot_row as int].eq,
                                    i2.rows[pivot_row as int].eq,
                                    pivot_col as int,
                                );
                                lemma_with_row_eq_congr(
                                    e2,
                                    i2,
                                    pivot_row as int,
                                    spec_normalize_eq(e2.rows[pivot_row as int].eq, pivot_col as int),
                                    spec_normalize_eq(i2.rows[pivot_row as int].eq, pivot_col as int),
                                );
                                lemma_problem_equiv_trans(e3, w3, i3);
                                lemma_equiv_wf(e3, i3);
                            }
                            if !reduce_equations(&mut problem, pivot_row, pivot_col) {
                                running = false;
                            } else {
                                let ghost e4 = problem@;
                                let ghost i4 = spec_reduce_all(i3, pivot_row as int, pivot_col as int);
                                proof {
                                    crate::model::lemma_reduce_all_congr(
                                        e3,
                                        i3,
                                        pivot_row as int,
                                        pivot_col as int,
                                    );
                                    lemma_problem_equiv_trans(
                                        e4,
                                        spec_reduce_all(e3, pivot_row as int, pivot_col as int),
                                        i4,
                                    );
                                    lemma_equiv_wf(e4, i4);
                                }
                                set_new_point(&mut problem);
                                let ghost e5 = problem@;
                                let ghost i5 = with_new_point(i4);
                                proof {
                                    crate::model::lemma_new_point_congr(e4, i4);
                                    assert(problem_equiv(e5, i5));
                                    lemma_equiv_wf(e5, i5);
                                    assert(i5 == crate::model::spec_pivot(
                                        i1,
                                        pivot_row as int,
                                        pivot_col as int,
                                    ));
                                    assert(spec_step(qcur) == QStep::Pivot(i5));
                                    crate::model::lemma_iter_snoc(init, steps, qcur, i5);
                                    qcur = i5;
                                    steps = steps + 1;
                                }
                                observer.observe(problem.clone());
                            }
                        }
                    },
                }
            }
        }
    }
    outcome
}


/// Check at run time that a tableau is well formed: every value has a
/// positive denominator, every row has the objective row's width, the point
/// has that width, and each basic variable is a valid column.
pub fn shape_check(problem: &Problem) -> (r: bool)
    ensures
        r == problem_wf(problem@),
{
    let width = problem.objective_equation.coefficients.len();
    if problem.objective_equation.constraint.den <= 0 {
        proof {
            assert(!q_wf(problem@.objective.constant));
        }
        return false;
    }
    let mut i: usize = 0;
    while i < width
        invariant
            i <= width,
            width == problem.objective_equation.coefficients@.len(),
            forall|t: int|
                0 <= t < i ==> q_wf(#[trigger] problem@.objective.coeffs[t]),
        decreases width - i,
    {
        proof {
            assert(problem@.objective.coeffs[i as int]
                == problem.objective_equation.coefficients@[i as int].q());
        }
        if problem.objective_equation.coefficients[i].den <= 0 {
            proof {
                assert(!q_wf(problem@.objective.coeffs[i as int]));
            }
            return false;
        }
        i = i + 1;
    }
    if problem.point.len() != width {
        proof {
            assert(problem@.point.len() != problem@.objective.coeffs.len());
        }
        return false;
    }
    let mut i: usize = 0;
    while i < width
        invariant
            i <= width,
            width == problem.point@.len(),
            forall|t: int| 0 <= t < i ==> q_wf(#[trigger] problem@.point[t]),
        decreases width - i,
    {
        proof {
            assert(problem@.point[i as int] == problem.point@[i as int].q());
        }
        if problem.point[i].den <= 0 {
            proof {
                assert(!q_wf(problem@.point[i as int]));
            }
            return false;
        }
        i = i + 1;
    }
    let m = problem.rows.len();
    let mut j: usize = 0;
    while j < m
        invariant
            j <= m,
            m == problem.rows@.len(),
            width == problem.objective_equation.coefficients@.len(),
            forall|t: int|
                0 <= t < j ==> eq_wf((#[trigger] problem@.rows[t]).eq) && problem@.rows[t].eq.coeffs.len()
                    == width && q_wf(problem@.rows[t].ratio) && 0 <= problem@.rows[t].basic
                    < width,
        decreases m - j,
    {
        proof {
            assert(problem@.rows[j as int] == problem.rows@[j as int]@);
        }
        let row = &problem.rows[j];
        if row.equation.coefficients.len() != width {
            proof {
                assert(problem@.rows[j as int].eq.coeffs.len()
                    != problem@.objective.coeffs.len());
            }
            return false;
        }
        if row.equation.constraint.den <= 0 {
            proof {
                assert(!q_wf(problem@.rows[j as int].eq.constant));
            }
            return false;
        }
        if row.ratio.den <= 0 {
            proof {
                assert(!q_wf(problem@.rows[j as int].ratio));
            }
            return false;
        }
        if row.basic_variable >= width {
            proof {
                assert(!(problem@.rows[j as int].basic < problem@.objective.coeffs.len()));
            }
            return false;
        }
        let n = row.equation.coefficients.len();
        let mut k: usize = 0;
        while k < n
            invariant
                k <= n,
                n == row.equation.coefficients@.len(),
                j < problem@.rows.len(),
                row@ == problem@.rows[j as int],
                forall|t: int|
                    0 <= t < k ==> q_wf(#[trigger] row@.eq.coeffs[t]),
            decreases n - k,
        {
            proof {
                assert(row@.eq.coeffs[k as int] == row.equation.coefficients@[k as int].q());
            }
            if row.equation.coefficients[k].den <= 0 {
                proof {
                    assert(!q_wf(problem@.rows[j as int].eq.coeffs[k as int]));
                }
                return false;
            }
            k = k + 1;
        }
        j = j + 1;
    }
    proof {
        assert(problem_wf(problem@));
    }
    true
}

} // verus!
