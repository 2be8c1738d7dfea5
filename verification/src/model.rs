//! The mathematical model of the simplex tableau.
//!
//! Every structure of the executable tableau has a counterpart here over
//! unbounded integers: a rational is a numerator-denominator pair, a row is a
//! sequence of such pairs. The executable engine is specified against the step
//! functions of this module; `spec_run` iterates them and is the reference for
//! what a whole solve returns.
use vstd::prelude::*;

use crate::rational::{q_add, q_div, q_eq, q_le, q_lt, q_mul, q_one, q_sub, q_wf, q_zero};

verus! {

/// One tableau row as an equation: `sum coeffs[i] * x_i = constant`.
#[verifier::ext_equal]
pub struct QEquation {
    pub coeffs: Seq<(int, int)>,
    pub constant: (int, int),
}

/// A constraint row together with the variable it currently determines and
/// the scratch ratio of the ratio test.
#[verifier::ext_equal]
pub struct QRow {
    pub basic: int,
    pub eq: QEquation,
    pub ratio: (int, int),
}

/// The whole tableau: objective row, constraint rows, and the current point.
#[verifier::ext_equal]
pub struct QProblem {
    pub objective: QEquation,
    pub rows: Seq<QRow>,
    pub point: Seq<(int, int)>,
}

/// An input constraint `sum coeffs[i] * x_i <= bound`.
#[verifier::ext_equal]
pub struct QConstraint {
    pub coeffs: Seq<(int, int)>,
    pub bound: (int, int),
}

pub open spec fn constraint_wf(c: QConstraint) -> bool {
    &&& q_wf(c.bound)
    &&& forall|i: int| 0 <= i < c.coeffs.len() ==> q_wf(#[trigger] c.coeffs[i])
}

pub open spec fn eq_wf(e: QEquation) -> bool {
    &&& q_wf(e.constant)
    &&& forall|i: int| 0 <= i < e.coeffs.len() ==> q_wf(#[trigger] e.coeffs[i])
}

/// Shape and well-formedness of a tableau: every row has the width of the
/// objective row, the point has that width too, every value has a positive
/// denominator, and each row's basic variable is a valid column.
pub open spec fn problem_wf(p: QProblem) -> bool {
    &&& eq_wf(p.objective)
    &&& forall|j: int| 0 <= j < p.rows.len() ==> eq_wf((#[trigger] p.rows[j]).eq)
    &&& forall|j: int|
        0 <= j < p.rows.len() ==> (#[trigger] p.rows[j]).eq.coeffs.len()
            == p.objective.coeffs.len()
    &&& forall|j: int| 0 <= j < p.rows.len() ==> q_wf((#[trigger] p.rows[j]).ratio)
    &&& forall|j: int|
        0 <= j < p.rows.len() ==> 0 <= (#[trigger] p.rows[j]).basic < p.objective.coeffs.len()
    &&& p.point.len() == p.objective.coeffs.len()
    &&& forall|i: int| 0 <= i < p.point.len() ==> q_wf(#[trigger] p.point[i])
}

/// Two well-formed pair sequences that denote the same sequence of
/// rationals.
pub open spec fn seq_q_eq(a: Seq<(int, int)>, b: Seq<(int, int)>) -> bool {
    &&& a.len() == b.len()
    &&& forall|i: int|
        #![trigger a[i]]
        #![trigger b[i]]
        0 <= i < a.len() ==> q_wf(a[i]) && q_wf(b[i]) && q_eq(a[i], b[i])
}

pub open spec fn equation_equiv(a: QEquation, b: QEquation) -> bool {
    &&& seq_q_eq(a.coeffs, b.coeffs)
    &&& q_wf(a.constant)
    &&& q_wf(b.constant)
    &&& q_eq(a.constant, b.constant)
}

pub open spec fn row_equiv(a: QRow, b: QRow) -> bool {
    &&& a.basic == b.basic
    &&& equation_equiv(a.eq, b.eq)
    &&& q_wf(a.ratio)
    &&& q_wf(b.ratio)
    &&& q_eq(a.ratio, b.ratio)
}

/// Two tableaus that agree everywhere up to rational equality.
pub open spec fn problem_equiv(a: QProblem, b: QProblem) -> bool {
    &&& equation_equiv(a.objective, b.objective)
    &&& a.rows.len() == b.rows.len()
    &&& forall|j: int|
        #![trigger a.rows[j]]
        #![trigger b.rows[j]]
        0 <= j < a.rows.len() ==> row_equiv(a.rows[j], b.rows[j])
    &&& seq_q_eq(a.point, b.point)
}

// ---------------------------------------------------------------------------
// Construction: the initial tableau of a standard-form problem.
// ---------------------------------------------------------------------------

/// The unit coefficient sequence of slack variable `j` among `m` slots.
pub open spec fn slack_block(j: int, m: int) -> Seq<(int, int)> {
    Seq::new(m as nat, |k: int| if k == j { q_one() } else { q_zero() })
}

/// The objective row of the initial tableau: the negated objective
/// coefficients, then one zero per constraint, with constant zero.
pub open spec fn initial_objective(obj: Seq<(int, int)>, m: int) -> QEquation {
    QEquation {
        coeffs: obj.map_values(|a: (int, int)| (-a.0, a.1)) + Seq::new(
            m as nat,
            |k: int| q_zero(),
        ),
        constant: q_zero(),
    }
}

/// Constraint row `j` of the initial tableau: the constraint's coefficients,
/// an identity block for the slack variables, the bound as constant, and the
/// slack variable `n + j` as basic variable.
pub open spec fn initial_row(c: QConstraint, j: int, n: int, m: int) -> QRow {
    QRow {
        basic: n + j,
        eq: QEquation { coeffs: c.coeffs + slack_block(j, m), constant: c.bound },
        ratio: q_zero(),
    }
}

/// The initial point: structural variables at zero, each slack variable at
/// its constraint's bound.
pub open spec fn initial_point(n: int, cons: Seq<QConstraint>) -> Seq<(int, int)> {
    Seq::new(n as nat, |k: int| q_zero()) + cons.map_values(|c: QConstraint| c.bound)
}

/// The initial tableau of `maximize obj . x subject to cons, x >= 0`.
pub open spec fn initial_problem(obj: Seq<(int, int)>, cons: Seq<QConstraint>) -> QProblem {
    QProblem {
        objective: initial_objective(obj, cons.len() as int),
        rows: Seq::new(cons.len(), |j: int| initial_row(cons[j], j, obj.len() as int, cons.len() as int)),
        point: initial_point(obj.len() as int, cons),
    }
}

// ---------------------------------------------------------------------------
// One iteration of the pivot engine.
// ---------------------------------------------------------------------------

/// The tableau is optimal: no objective-row coefficient is negative.
pub open spec fn spec_is_optimal(p: QProblem) -> bool {
    forall|i: int|
        0 <= i < p.objective.coeffs.len() ==> q_le(q_zero(), #[trigger] p.objective.coeffs[i])
}

/// The index of the minimum of a nonempty sequence of rationals, the first
/// one when several are equal.
pub open spec fn min_idx(s: Seq<(int, int)>) -> int
    decreases s.len(),
{
    if s.len() <= 1 {
        0
    } else {
        let r = min_idx(s.drop_last());
        if q_le(s[r], s[s.len() - 1]) {
            r
        } else {
            s.len() - 1
        }
    }
}

/// The entering variable: the column of the most negative objective-row
/// coefficient, lowest index on ties; none when the row is empty.
pub open spec fn spec_pivot_variable(p: QProblem) -> Option<int> {
    if p.objective.coeffs.len() == 0 {
        None
    } else {
        Some(min_idx(p.objective.coeffs))
    }
}

/// The ratio-test scratch value of one row for the entering column: the
/// row's constant divided by its pivot-column coefficient, or zero when that
/// coefficient is zero (such a row is never eligible).
pub open spec fn spec_row_ratio(row: QRow, col: int) -> (int, int) {
    if row.eq.coeffs[col].0 == 0 {
        q_zero()
    } else {
        q_div(row.eq.constant, row.eq.coeffs[col])
    }
}

pub open spec fn spec_set_ratios(p: QProblem, col: int) -> QProblem {
    QProblem {
        rows: p.rows.map_values(
            |r: QRow| QRow { ratio: spec_row_ratio(r, col), ..r },
        ),
        ..p
    }
}

/// The leaving row: among rows with a strictly positive ratio, the one with
/// the least ratio, lowest row index on ties; none when no row qualifies.
pub open spec fn spec_pivot_row(rows: Seq<QRow>) -> Option<int>
    decreases rows.len(),
{
    if rows.len() == 0 {
        None
    } else {
        let prev = spec_pivot_row(rows.drop_last());
        let last = rows.len() - 1;
        if q_lt(q_zero(), rows[last].ratio) {
            match prev {
                Option::None => Option::Some(last as int),
                Option::Some(j) => if q_le(rows[j].ratio, rows[last].ratio) {
                    Option::Some(j)
                } else {
                    Option::Some(last as int)
                },
            }
        } else {
            prev
        }
    }
}

/// Row normalization: divide the equation by its pivot-column coefficient
/// and force that coefficient to exactly one.
pub open spec fn spec_normalize_eq(e: QEquation, v: int) -> QEquation {
    let c = e.coeffs[v];
    QEquation {
        coeffs: Seq::new(e.coeffs.len(), |i: int| if i == v { q_one() } else { q_div(e.coeffs[i], c) }),
        constant: q_div(e.constant, c),
    }
}

/// The machine window within which one reduction term is certain to be
/// computable: the scaling product `f * p` fits, and the subtraction of
/// that product from `x` stays within the subtraction window (both cross
/// products together, and the denominator product, below the word bound).
pub open spec fn reduce_term_within(x: (int, int), f: (int, int), p: (int, int)) -> bool {
    &&& crate::rational::int_abs(f.0 * p.0) <= i64::MAX
    &&& f.1 * p.1 <= i64::MAX
    &&& crate::rational::int_abs(x.0) * (f.1 * p.1) + crate::rational::int_abs(f.0 * p.0) * x.1
        <= i64::MAX
    &&& x.1 * (f.1 * p.1) <= i64::MAX
}

/// Every term of the reduction of `e` against `pivot` stays within the
/// machine window.
pub open spec fn reduce_eq_within(e: QEquation, pivot: QEquation, v: int) -> bool {
    &&& forall|k: int|
        0 <= k < e.coeffs.len() ==> reduce_term_within(
            #[trigger] e.coeffs[k],
            e.coeffs[v],
            pivot.coeffs[k],
        )
    &&& reduce_term_within(e.constant, e.coeffs[v], pivot.constant)
}

/// Row reduction: subtract `factor` times the normalized pivot equation,
/// where `factor` is this equation's pivot-column coefficient.
pub open spec fn spec_reduce_eq(e: QEquation, pivot: QEquation, v: int) -> QEquation {
    let f = e.coeffs[v];
    QEquation {
        coeffs: Seq::new(e.coeffs.len(), |i: int| q_sub(e.coeffs[i], q_mul(f, pivot.coeffs[i]))),
        constant: q_sub(e.constant, q_mul(f, pivot.constant)),
    }
}

/// The point determined by the rows: zero everywhere, then each row's
/// constant at its basic variable, rows applied in order.
pub open spec fn apply_rows(point: Seq<(int, int)>, rows: Seq<QRow>) -> Seq<(int, int)>
    decreases rows.len(),
{
    if rows.len() == 0 {
        point
    } else {
        apply_rows(point, rows.drop_last()).update(rows.last().basic, rows.last().eq.constant)
    }
}

pub open spec fn spec_new_point(p: QProblem) -> Seq<(int, int)> {
    apply_rows(Seq::new(p.point.len(), |i: int| q_zero()), p.rows)
}

/// The tableau with row `j`'s basic variable set to `b`.
pub open spec fn with_row_basic(p: QProblem, j: int, b: int) -> QProblem {
    QProblem { rows: p.rows.update(j, QRow { basic: b, ..p.rows[j] }), ..p }
}

/// The tableau with row `j`'s equation replaced by `e`.
pub open spec fn with_row_eq(p: QProblem, j: int, e: QEquation) -> QProblem {
    QProblem { rows: p.rows.update(j, QRow { eq: e, ..p.rows[j] }), ..p }
}

/// Every row but the pivot row `r`, and the objective row, reduced against
/// the pivot row's (already normalized) equation.
pub open spec fn spec_reduce_all(p: QProblem, r: int, v: int) -> QProblem {
    QProblem {
        objective: spec_reduce_eq(p.objective, p.rows[r].eq, v),
        rows: Seq::new(
            p.rows.len(),
            |j: int| if j == r {
                p.rows[j]
            } else {
                QRow { eq: spec_reduce_eq(p.rows[j].eq, p.rows[r].eq, v), ..p.rows[j] }
            },
        ),
        point: p.point,
    }
}

/// The tableau with its point recomputed from the rows.
pub open spec fn with_new_point(p: QProblem) -> QProblem {
    QProblem { point: spec_new_point(p), ..p }
}

/// The whole pivot at leaving row `r` and entering variable `v`: set the
/// row's basic variable, normalize it, reduce every other row and the
/// objective row against it, and recompute the point.
pub open spec fn spec_pivot(p: QProblem, r: int, v: int) -> QProblem {
    let p1 = with_row_basic(p, r, v);
    let p2 = with_row_eq(p1, r, spec_normalize_eq(p1.rows[r].eq, v));
    let p3 = spec_reduce_all(p2, r, v);
    with_new_point(p3)
}

/// What one loop iteration does to the tableau.
pub enum QStep {
    /// Every objective-row coefficient is nonnegative: the point is returned.
    Optimal(QProblem),
    /// No row passes the ratio test: the current point is returned as-is.
    Stalled(QProblem),
    /// A pivot was performed; the loop continues on the new tableau.
    Pivot(QProblem),
}

/// One iteration of the engine on a non-optimal tableau is a pivot when an
/// entering variable and a leaving row exist, and otherwise ends the solve.
pub open spec fn spec_step(p: QProblem) -> QStep {
    if spec_is_optimal(p) {
        QStep::Optimal(p)
    } else {
        match spec_pivot_variable(p) {
            Option::None => QStep::Stalled(p),
            Option::Some(v) => {
                let p1 = spec_set_ratios(p, v);
                match spec_pivot_row(p1.rows) {
                    Option::None => QStep::Stalled(p1),
                    Option::Some(r) => QStep::Pivot(spec_pivot(p1, r, v)),
                }
            },
        }
    }
}

/// The point that the engine returns after at most `fuel` pivots, or none
/// when `fuel` pivots do not reach a terminal tableau.
pub open spec fn spec_run(p: QProblem, fuel: nat) -> Option<Seq<(int, int)>>
    decreases fuel,
{
    if fuel == 0 {
        None
    } else {
        match spec_step(p) {
            QStep::Optimal(p2) => Some(p2.point),
            QStep::Stalled(p2) => Some(p2.point),
            QStep::Pivot(p2) => spec_run(p2, (fuel - 1) as nat),
        }
    }
}

/// The first index of the minimum is a valid index.
pub proof fn lemma_min_idx_bounds(s: Seq<(int, int)>)
    requires
        s.len() > 0,
    ensures
        0 <= min_idx(s) < s.len(),
    decreases s.len(),
{
    if s.len() > 1 {
        lemma_min_idx_bounds(s.drop_last());
    }
}

/// The minimum's index holds a value no greater than any entry.
pub proof fn lemma_min_idx_le(s: Seq<(int, int)>, i: int)
    requires
        0 <= i < s.len(),
        forall|t: int| 0 <= t < s.len() ==> q_wf(#[trigger] s[t]),
    ensures
        0 <= min_idx(s) < s.len(),
        q_le(s[min_idx(s)], s[i]),
    decreases s.len(),
{
    lemma_min_idx_bounds(s);
    if s.len() > 1 {
        let s0 = s.drop_last();
        let last = s.len() - 1;
        lemma_min_idx_bounds(s0);
        let m0 = min_idx(s0);
        assert(forall|t: int| 0 <= t < s0.len() ==> q_wf(#[trigger] s0[t]));
        if i < last {
            lemma_min_idx_le(s0, i);
            if !q_le(s[m0], s[last]) {
                // the last element was chosen and is below the prior minimum
                crate::rational::lemma_q_le_trans(s[last], s[m0], s[i]);
            }
        } else {
            if q_le(s[m0], s[last]) {
                assert(q_le(s[min_idx(s)], s[i]));
            }
        }
    } else {
        assert(q_le(s[0], s[0]));
    }
}


// ---------------------------------------------------------------------------
// Congruence: every step of the engine respects rational equality, so a
// tableau of reduced machine values and its ideal unbounded counterpart
// evolve in lock step.
// ---------------------------------------------------------------------------

/// Equivalence of tableaus is reflexive on well-formed tableaus.
pub proof fn lemma_problem_equiv_refl(p: QProblem)
    requires
        problem_wf(p),
    ensures
        problem_equiv(p, p),
{
}

/// Equivalence of tableaus is transitive.
pub proof fn lemma_problem_equiv_trans(a: QProblem, b: QProblem, c: QProblem)
    requires
        problem_equiv(a, b),
        problem_equiv(b, c),
    ensures
        problem_equiv(a, c),
{
    crate::rational::lemma_q_eq_trans(a.objective.constant, b.objective.constant, c.objective.constant);
    assert forall|i: int| 0 <= i < a.objective.coeffs.len() implies q_wf(
        #[trigger] a.objective.coeffs[i],
    ) && q_wf(#[trigger] c.objective.coeffs[i]) && q_eq(a.objective.coeffs[i], c.objective.coeffs[i]) by {
        crate::rational::lemma_q_eq_trans(
            a.objective.coeffs[i],
            b.objective.coeffs[i],
            c.objective.coeffs[i],
        );
    }
    assert forall|i: int| 0 <= i < a.point.len() implies q_wf(#[trigger] a.point[i]) && q_wf(
        #[trigger] c.point[i],
    ) && q_eq(a.point[i], c.point[i]) by {
        crate::rational::lemma_q_eq_trans(a.point[i], b.point[i], c.point[i]);
    }
    assert forall|j: int| 0 <= j < a.rows.len() implies row_equiv(
        #[trigger] a.rows[j],
        #[trigger] c.rows[j],
    ) by {
        let (x, y, z) = (a.rows[j], b.rows[j], c.rows[j]);
        crate::rational::lemma_q_eq_trans(x.ratio, y.ratio, z.ratio);
        crate::rational::lemma_q_eq_trans(x.eq.constant, y.eq.constant, z.eq.constant);
        assert forall|i: int| 0 <= i < x.eq.coeffs.len() implies q_wf(#[trigger] x.eq.coeffs[i])
            && q_wf(#[trigger] z.eq.coeffs[i]) && q_eq(x.eq.coeffs[i], z.eq.coeffs[i]) by {
            crate::rational::lemma_q_eq_trans(x.eq.coeffs[i], y.eq.coeffs[i], z.eq.coeffs[i]);
        }
    }
}

/// Well-formedness carries across equivalence.
pub proof fn lemma_equiv_wf(a: QProblem, b: QProblem)
    requires
        problem_equiv(a, b),
        problem_wf(a),
    ensures
        problem_wf(b),
{
    assert forall|j: int| 0 <= j < b.rows.len() implies eq_wf((#[trigger] b.rows[j]).eq)
        && b.rows[j].eq.coeffs.len() == b.objective.coeffs.len() && q_wf(b.rows[j].ratio) && 0 <= b.rows[j].basic
        < b.objective.coeffs.len() by {
        assert(row_equiv(a.rows[j], b.rows[j]));
    }
}

/// Equivalent tableaus agree on the optimality test.
pub proof fn lemma_is_optimal_congr(a: QProblem, b: QProblem)
    requires
        problem_equiv(a, b),
    ensures
        spec_is_optimal(a) == spec_is_optimal(b),
{
    assert forall|i: int| 0 <= i < a.objective.coeffs.len() implies (q_le(
        q_zero(),
        #[trigger] a.objective.coeffs[i],
    ) == q_le(q_zero(), #[trigger] b.objective.coeffs[i])) by {
        crate::rational::lemma_q_le_congr(
            q_zero(),
            a.objective.coeffs[i],
            q_zero(),
            b.objective.coeffs[i],
        );
    }
}

/// Equivalent sequences have the same first minimum index.
pub proof fn lemma_min_idx_congr(s1: Seq<(int, int)>, s2: Seq<(int, int)>)
    requires
        seq_q_eq(s1, s2),
        s1.len() > 0,
    ensures
        min_idx(s1) == min_idx(s2),
    decreases s1.len(),
{
    if s1.len() > 1 {
        assert(seq_q_eq(s1.drop_last(), s2.drop_last()));
        lemma_min_idx_congr(s1.drop_last(), s2.drop_last());
        lemma_min_idx_bounds(s1.drop_last());
        let r = min_idx(s1.drop_last());
        crate::rational::lemma_q_le_congr(
            s1[r],
            s1[s1.len() - 1],
            s2[r],
            s2[s2.len() - 1],
        );
    }
}

/// Equivalent tableaus select the same entering variable.
pub proof fn lemma_pivot_variable_congr(a: QProblem, b: QProblem)
    requires
        problem_equiv(a, b),
    ensures
        spec_pivot_variable(a) == spec_pivot_variable(b),
{
    if a.objective.coeffs.len() > 0 {
        lemma_min_idx_congr(a.objective.coeffs, b.objective.coeffs);
    }
}

/// Equivalent rows have equal (and well-formed) ratio-test values.
pub proof fn lemma_row_ratio_congr(r1: QRow, r2: QRow, col: int)
    requires
        row_equiv(r1, r2),
        0 <= col < r1.eq.coeffs.len(),
    ensures
        q_wf(spec_row_ratio(r1, col)),
        q_wf(spec_row_ratio(r2, col)),
        q_eq(spec_row_ratio(r1, col), spec_row_ratio(r2, col)),
{
    crate::rational::lemma_q_zero_congr(r1.eq.coeffs[col], r2.eq.coeffs[col]);
    if r1.eq.coeffs[col].0 != 0 {
        crate::rational::lemma_q_div_congr(
            r1.eq.constant,
            r1.eq.coeffs[col],
            r2.eq.constant,
            r2.eq.coeffs[col],
        );
        crate::rational::lemma_q_div_wf(r2.eq.constant, r2.eq.coeffs[col]);
    }
}

/// Equivalent tableaus compute equivalent ratio columns.
pub proof fn lemma_set_ratios_congr(a: QProblem, b: QProblem, col: int)
    requires
        problem_equiv(a, b),
        forall|j: int| 0 <= j < a.rows.len() ==> 0 <= col < (#[trigger] a.rows[j]).eq.coeffs.len(),
    ensures
        problem_equiv(spec_set_ratios(a, col), spec_set_ratios(b, col)),
{
    let x = spec_set_ratios(a, col);
    let y = spec_set_ratios(b, col);
    assert forall|j: int| 0 <= j < x.rows.len() implies row_equiv(
        #[trigger] x.rows[j],
        #[trigger] y.rows[j],
    ) by {
        assert(row_equiv(a.rows[j], b.rows[j]));
        lemma_row_ratio_congr(a.rows[j], b.rows[j], col);
        assert(x.rows[j] == (QRow { ratio: spec_row_ratio(a.rows[j], col), ..a.rows[j] }));
        assert(y.rows[j] == (QRow { ratio: spec_row_ratio(b.rows[j], col), ..b.rows[j] }));
    }
}

/// A selected leaving row is in bounds and has a strictly positive ratio.
pub proof fn lemma_pivot_row_some(rows: Seq<QRow>)
    ensures
        (spec_pivot_row(rows) matches Some(j) ==> 0 <= j < rows.len() && q_lt(
            q_zero(),
            rows[j].ratio,
        )),
    decreases rows.len(),
{
    if rows.len() > 0 {
        lemma_pivot_row_some(rows.drop_last());
    }
}

/// Equivalent row sequences select the same leaving row.
pub proof fn lemma_pivot_row_congr(r1: Seq<QRow>, r2: Seq<QRow>)
    requires
        r1.len() == r2.len(),
        forall|j: int| 0 <= j < r1.len() ==> row_equiv(#[trigger] r1[j], #[trigger] r2[j]),
    ensures
        spec_pivot_row(r1) == spec_pivot_row(r2),
    decreases r1.len(),
{
    if r1.len() > 0 {
        assert forall|j: int| 0 <= j < r1.drop_last().len() implies row_equiv(
            #[trigger] r1.drop_last()[j],
            #[trigger] r2.drop_last()[j],
        ) by {
            assert(row_equiv(r1[j], r2[j]));
        }
        lemma_pivot_row_congr(r1.drop_last(), r2.drop_last());
        lemma_pivot_row_some(r1.drop_last());
        let last = r1.len() - 1;
        assert(row_equiv(r1[last], r2[last]));
        crate::rational::lemma_q_le_congr(q_zero(), r1[last].ratio, q_zero(), r2[last].ratio);
        match spec_pivot_row(r1.drop_last()) {
            Option::Some(j) => {
                assert(row_equiv(r1[j], r2[j]));
                crate::rational::lemma_q_le_congr(
                    r1[j].ratio,
                    r1[last].ratio,
                    r2[j].ratio,
                    r2[last].ratio,
                );
            },
            Option::None => {},
        }
    }
}

/// Equivalent equations normalize to equivalent equations.
pub proof fn lemma_normalize_congr(e1: QEquation, e2: QEquation, v: int)
    requires
        equation_equiv(e1, e2),
        0 <= v < e1.coeffs.len(),
        e1.coeffs[v].0 != 0,
    ensures
        equation_equiv(spec_normalize_eq(e1, v), spec_normalize_eq(e2, v)),
{
    crate::rational::lemma_q_zero_congr(e1.coeffs[v], e2.coeffs[v]);
    let x = spec_normalize_eq(e1, v);
    let y = spec_normalize_eq(e2, v);
    crate::rational::lemma_q_div_congr(e1.constant, e1.coeffs[v], e2.constant, e2.coeffs[v]);
    crate::rational::lemma_q_div_wf(e2.constant, e2.coeffs[v]);
    assert forall|i: int|
        #![trigger x.coeffs[i]]
        #![trigger y.coeffs[i]]
        0 <= i < x.coeffs.len() implies q_wf(x.coeffs[i]) && q_wf(y.coeffs[i]) && q_eq(
        x.coeffs[i],
        y.coeffs[i],
    ) by {
        if i != v {
            crate::rational::lemma_q_div_congr(
                e1.coeffs[i],
                e1.coeffs[v],
                e2.coeffs[i],
                e2.coeffs[v],
            );
            crate::rational::lemma_q_div_wf(e2.coeffs[i], e2.coeffs[v]);
        }
    }
    assert(seq_q_eq(x.coeffs, y.coeffs));
}

/// Equivalent equations reduce, against equivalent pivot equations, to
/// equivalent equations.
pub proof fn lemma_reduce_congr(e1: QEquation, e2: QEquation, p1: QEquation, p2: QEquation, v: int)
    requires
        equation_equiv(e1, e2),
        equation_equiv(p1, p2),
        0 <= v < e1.coeffs.len(),
        e1.coeffs.len() <= p1.coeffs.len(),
    ensures
        equation_equiv(spec_reduce_eq(e1, p1, v), spec_reduce_eq(e2, p2, v)),
{
    let f1 = e1.coeffs[v];
    let f2 = e2.coeffs[v];
    let x = spec_reduce_eq(e1, p1, v);
    let y = spec_reduce_eq(e2, p2, v);
    crate::rational::lemma_q_mul_congr(f1, p1.constant, f2, p2.constant);
    crate::rational::lemma_q_add_congr(
        e1.constant,
        q_mul(f1, p1.constant),
        e2.constant,
        q_mul(f2, p2.constant),
    );
    assert forall|i: int|
        #![trigger x.coeffs[i]]
        #![trigger y.coeffs[i]]
        0 <= i < x.coeffs.len() implies q_wf(x.coeffs[i]) && q_wf(y.coeffs[i]) && q_eq(
        x.coeffs[i],
        y.coeffs[i],
    ) by {
        crate::rational::lemma_q_mul_congr(f1, p1.coeffs[i], f2, p2.coeffs[i]);
        crate::rational::lemma_q_add_congr(
            e1.coeffs[i],
            q_mul(f1, p1.coeffs[i]),
            e2.coeffs[i],
            q_mul(f2, p2.coeffs[i]),
        );
    }
    assert(seq_q_eq(x.coeffs, y.coeffs));
}

/// Applying rows whose basic variables are in range keeps the point's
/// length.
pub proof fn lemma_apply_rows_len(point: Seq<(int, int)>, rows: Seq<QRow>)
    requires
        forall|j: int| 0 <= j < rows.len() ==> 0 <= (#[trigger] rows[j]).basic < point.len(),
    ensures
        apply_rows(point, rows).len() == point.len(),
    decreases rows.len(),
{
    if rows.len() > 0 {
        assert forall|j: int| 0 <= j < rows.drop_last().len() implies 0 <= (#[trigger] rows.drop_last()[j]).basic
            < point.len() by {
            assert(0 <= rows[j].basic < point.len());
        }
        lemma_apply_rows_len(point, rows.drop_last());
        assert(apply_rows(point, rows) == apply_rows(point, rows.drop_last()).update(
            rows.last().basic,
            rows.last().eq.constant,
        ));
    } else {
        assert(apply_rows(point, rows) == point);
    }
}

/// Equivalent tableaus reduce to equivalent tableaus.
pub proof fn lemma_reduce_all_congr(a: QProblem, b: QProblem, r: int, v: int)
    requires
        problem_equiv(a, b),
        0 <= r < a.rows.len(),
        0 <= v < a.objective.coeffs.len(),
        forall|j: int|
            0 <= j < a.rows.len() ==> (#[trigger] a.rows[j]).eq.coeffs.len()
                == a.objective.coeffs.len(),
        forall|j: int|
            0 <= j < b.rows.len() ==> (#[trigger] b.rows[j]).eq.coeffs.len()
                == b.objective.coeffs.len(),
    ensures
        problem_equiv(spec_reduce_all(a, r, v), spec_reduce_all(b, r, v)),
{
    let x = spec_reduce_all(a, r, v);
    let y = spec_reduce_all(b, r, v);
    assert(row_equiv(a.rows[r], b.rows[r]));
    lemma_reduce_congr(a.objective, b.objective, a.rows[r].eq, b.rows[r].eq, v);
    assert forall|j: int| 0 <= j < x.rows.len() implies row_equiv(
        #[trigger] x.rows[j],
        #[trigger] y.rows[j],
    ) by {
        assert(row_equiv(a.rows[j], b.rows[j]));
        if j != r {
            lemma_reduce_congr(a.rows[j].eq, b.rows[j].eq, a.rows[r].eq, b.rows[r].eq, v);
        }
    }
}

/// Applying equivalent rows to equivalent points gives equivalent points.
pub proof fn lemma_apply_rows_congr(
    p1: Seq<(int, int)>,
    p2: Seq<(int, int)>,
    r1: Seq<QRow>,
    r2: Seq<QRow>,
)
    requires
        seq_q_eq(p1, p2),
        r1.len() == r2.len(),
        forall|j: int|
            #![trigger r1[j]]
            #![trigger r2[j]]
            0 <= j < r1.len() ==> row_equiv(r1[j], r2[j]),
        forall|j: int| 0 <= j < r1.len() ==> 0 <= (#[trigger] r1[j]).basic < p1.len(),
    ensures
        seq_q_eq(apply_rows(p1, r1), apply_rows(p2, r2)),
    decreases r1.len(),
{
    if r1.len() > 0 {
        assert forall|j: int|
            #![trigger r1.drop_last()[j]]
            #![trigger r2.drop_last()[j]]
            0 <= j < r1.drop_last().len() implies row_equiv(
            r1.drop_last()[j],
            r2.drop_last()[j],
        ) && 0 <= r1.drop_last()[j].basic < p1.len() by {
            assert(row_equiv(r1[j], r2[j]));
            assert(0 <= r1[j].basic < p1.len());
        }
        lemma_apply_rows_congr(p1, p2, r1.drop_last(), r2.drop_last());
        let last = r1.len() - 1;
        assert(row_equiv(r1[last], r2[last]));
        let u1 = apply_rows(p1, r1.drop_last());
        let u2 = apply_rows(p2, r2.drop_last());
        lemma_apply_rows_len(p1, r1.drop_last());
        lemma_apply_rows_len(p2, r2.drop_last());
        let w1 = u1.update(r1[last].basic, r1[last].eq.constant);
        let w2 = u2.update(r2[last].basic, r2[last].eq.constant);
        assert forall|i: int|
            #![trigger w1[i]]
            #![trigger w2[i]]
            0 <= i < w1.len() implies q_wf(w1[i]) && q_wf(w2[i]) && q_eq(w1[i], w2[i]) by {
            if i == r1[last].basic {
                assert(w1[i] == r1[last].eq.constant);
                assert(w2[i] == r2[last].eq.constant);
            } else {
                assert(w1[i] == u1[i]);
                assert(w2[i] == u2[i]);
                assert(q_wf(u1[i]) && q_wf(u2[i]) && q_eq(u1[i], u2[i]));
            }
        }
        assert(seq_q_eq(w1, w2));
        assert(apply_rows(p1, r1) == w1);
        assert(apply_rows(p2, r2) == w2);
    }
}

/// The recomputed points of equivalent tableaus are equivalent.
pub proof fn lemma_new_point_congr(a: QProblem, b: QProblem)
    requires
        problem_equiv(a, b),
        a.point.len() == b.point.len(),
        forall|j: int| 0 <= j < a.rows.len() ==> 0 <= (#[trigger] a.rows[j]).basic < a.point.len(),
    ensures
        seq_q_eq(spec_new_point(a), spec_new_point(b)),
{
    let z1 = Seq::new(a.point.len(), |i: int| q_zero());
    let z2 = Seq::new(b.point.len(), |i: int| q_zero());
    assert(z1 =~= z2);
    assert(seq_q_eq(z1, z2));
    lemma_apply_rows_congr(z1, z2, a.rows, b.rows);
}

// ---------------------------------------------------------------------------
// Iteration: pivots chained from a starting tableau, and what the run
// returns.
// ---------------------------------------------------------------------------

/// The tableau after exactly `k` pivots, or none when a terminal state (or a
/// missing entering variable) comes first.
pub open spec fn iter_pivots(p: QProblem, k: nat) -> Option<QProblem>
    decreases k,
{
    if k == 0 {
        Some(p)
    } else {
        match spec_step(p) {
            QStep::Pivot(p2) => iter_pivots(p2, (k - 1) as nat),
            _ => None,
        }
    }
}

/// One more pivot extends the chain.
pub proof fn lemma_iter_snoc(p: QProblem, k: nat, q: QProblem, q2: QProblem)
    requires
        iter_pivots(p, k) == Some(q),
        spec_step(q) == QStep::Pivot(q2),
    ensures
        iter_pivots(p, k + 1) == Some(q2),
    decreases k,
{
    if k == 0 {
        assert(spec_step(p) == QStep::Pivot(q2));
        assert(iter_pivots(q2, 0) == Some(q2));
    }
    if k > 0 {
        match spec_step(p) {
            QStep::Pivot(pnext) => {
                lemma_iter_snoc(pnext, (k - 1) as nat, q, q2);
            },
            _ => {
                assert(false);
            },
        }
    }
}

/// A chain of `k` pivots that ends in a terminal step determines the run's
/// result with fuel `k + 1`.
pub proof fn lemma_iter_terminal(p: QProblem, k: nat, q: QProblem, out: Seq<(int, int)>)
    requires
        iter_pivots(p, k) == Some(q),
        (match spec_step(q) {
            QStep::Optimal(t) => out == t.point,
            QStep::Stalled(t) => out == t.point,
            QStep::Pivot(t) => false,
        }),
    ensures
        spec_run(p, k + 1) == Some(out),
    decreases k,
{
    if k > 0 {
        match spec_step(p) {
            QStep::Pivot(pnext) => {
                lemma_iter_terminal(pnext, (k - 1) as nat, q, out);
            },
            _ => {
                assert(false);
            },
        }
    }
}

/// The run's result does not depend on how much fuel was offered: any two
/// sufficient fuels give the same point.
pub proof fn lemma_run_deterministic(
    p: QProblem,
    f1: nat,
    f2: nat,
    s1: Seq<(int, int)>,
    s2: Seq<(int, int)>,
)
    requires
        spec_run(p, f1) == Some(s1),
        spec_run(p, f2) == Some(s2),
    ensures
        s1 == s2,
    decreases f1,
{
    match spec_step(p) {
        QStep::Pivot(p2) => {
            lemma_run_deterministic(p2, (f1 - 1) as nat, (f2 - 1) as nat, s1, s2);
        },
        QStep::Optimal(q) => {
        },
        QStep::Stalled(q) => {
        },
    }
}


/// Handing a row a new basic variable respects equivalence.
pub proof fn lemma_with_row_basic_congr(a: QProblem, b: QProblem, j: int, v: int)
    requires
        problem_equiv(a, b),
        0 <= j < a.rows.len(),
    ensures
        problem_equiv(with_row_basic(a, j, v), with_row_basic(b, j, v)),
{
    let x = with_row_basic(a, j, v);
    let y = with_row_basic(b, j, v);
    assert forall|t: int|
        #![trigger x.rows[t]]
        #![trigger y.rows[t]]
        0 <= t < x.rows.len() implies row_equiv(x.rows[t], y.rows[t]) by {
        assert(row_equiv(a.rows[t], b.rows[t]));
        if t != j {
            assert(x.rows[t] == a.rows[t]);
            assert(y.rows[t] == b.rows[t]);
        }
    }
}

/// Replacing one row's equation by equivalent equations respects
/// equivalence.
pub proof fn lemma_with_row_eq_congr(a: QProblem, b: QProblem, j: int, e1: QEquation, e2: QEquation)
    requires
        problem_equiv(a, b),
        0 <= j < a.rows.len(),
        equation_equiv(e1, e2),
    ensures
        problem_equiv(with_row_eq(a, j, e1), with_row_eq(b, j, e2)),
{
    let x = with_row_eq(a, j, e1);
    let y = with_row_eq(b, j, e2);
    assert forall|t: int|
        #![trigger x.rows[t]]
        #![trigger y.rows[t]]
        0 <= t < x.rows.len() implies row_equiv(x.rows[t], y.rows[t]) by {
        assert(row_equiv(a.rows[t], b.rows[t]));
        if t != j {
            assert(x.rows[t] == a.rows[t]);
            assert(y.rows[t] == b.rows[t]);
        }
    }
}

/// The ideal run with the given fuel ends and returns a point that denotes
/// the same rationals as `out`.
pub open spec fn run_gives(init: QProblem, fuel: nat, out: Seq<(int, int)>) -> bool {
    match spec_run(init, fuel) {
        Option::Some(s) => seq_q_eq(out, s),
        Option::None => false,
    }
}

/// Some amount of fuel makes the ideal run produce `out` (up to rational
/// equality); this is what `solve` promises of a returned point.
pub open spec fn solve_result_matches(init: QProblem, out: Seq<(int, int)>) -> bool {
    exists|fuel: nat| #[trigger] run_gives(init, fuel, out)
}


// ---------------------------------------------------------------------------
// Laws of the engine.
// ---------------------------------------------------------------------------

/// The rational dot product of two equally long sequences.
pub open spec fn q_dot(c: Seq<(int, int)>, x: Seq<(int, int)>) -> (int, int)
    decreases c.len(),
{
    if c.len() == 0 {
        q_zero()
    } else {
        q_add(q_dot(c.drop_last(), x.drop_last()), q_mul(c.last(), x.last()))
    }
}

/// A dot product against an all-zero vector is zero.
pub proof fn lemma_q_dot_zero(c: Seq<(int, int)>, x: Seq<(int, int)>)
    requires
        c.len() == x.len(),
        forall|i: int| 0 <= i < c.len() ==> q_wf(#[trigger] c[i]),
        forall|i: int| 0 <= i < x.len() ==> q_wf(#[trigger] x[i]) && x[i].0 == 0,
    ensures
        q_wf(q_dot(c, x)),
        q_eq(q_dot(c, x), q_zero()),
    decreases c.len(),
{
    if c.len() == 0 {
    } else {
        assert forall|i: int| 0 <= i < c.drop_last().len() implies q_wf(
            #[trigger] c.drop_last()[i],
        ) by {
            assert(q_wf(c[i]));
        }
        assert forall|i: int| 0 <= i < x.drop_last().len() implies q_wf(#[trigger] x.drop_last()[i])
            && x.drop_last()[i].0 == 0 by {
            assert(q_wf(x[i]) && x[i].0 == 0);
        }
        lemma_q_dot_zero(c.drop_last(), x.drop_last());
        let u = q_dot(c.drop_last(), x.drop_last());
        let m = q_mul(c.last(), x.last());
        assert(q_wf(q_add(u, m)) && q_eq(q_add(u, m), q_zero())) by (nonlinear_arith)
            requires
                u.1 > 0,
                c.last().1 > 0,
                x.last().1 > 0,
                m == (c.last().0 * x.last().0, c.last().1 * x.last().1),
                x.last().0 == 0,
                u.0 * 1 == 0 * u.1,
        ;
    }
}

/// Feasibility of the starting point: before any pivot, the initial point
/// satisfies every input constraint, as long as every bound is nonnegative
/// (the origin is assumed feasible). The structural part of the point is all
/// zeros, so each constraint's left-hand side is zero, below its bound.
pub proof fn lemma_initial_point_feasible(obj: Seq<(int, int)>, cons: Seq<QConstraint>, j: int)
    requires
        0 <= j < cons.len(),
        forall|t: int| 0 <= t < obj.len() ==> q_wf(#[trigger] obj[t]),
        forall|t: int| 0 <= t < cons.len() ==> constraint_wf(#[trigger] cons[t]),
        forall|t: int| 0 <= t < cons.len() ==> (#[trigger] cons[t]).coeffs.len() == obj.len(),
        forall|t: int| 0 <= t < cons.len() ==> q_le(q_zero(), (#[trigger] cons[t]).bound),
    ensures
        q_le(
            q_dot(cons[j].coeffs, initial_problem(obj, cons).point.take(obj.len() as int)),
            cons[j].bound,
        ),
{
    let p = initial_problem(obj, cons);
    let x = p.point.take(obj.len() as int);
    assert(x.len() == obj.len());
    assert forall|i: int| 0 <= i < x.len() implies q_wf(#[trigger] x[i]) && x[i].0 == 0 by {
        assert(p.point[i] == q_zero());
    }
    assert(constraint_wf(cons[j]));
    lemma_q_dot_zero(cons[j].coeffs, x);
    let d = q_dot(cons[j].coeffs, x);
    crate::rational::lemma_q_le_congr(d, cons[j].bound, q_zero(), cons[j].bound);
}

/// Monotonic improvement: across one pivot the objective row's constant,
/// which the tableau maintains as the current objective value, does not
/// decrease. The entering column is chosen with a negative objective entry
/// and the leaving row with a positive ratio, so the reduction step adds a
/// nonnegative amount to the constant.
pub proof fn lemma_step_objective_monotone(p: QProblem, p2: QProblem)
    requires
        problem_wf(p),
        spec_step(p) == QStep::Pivot(p2),
    ensures
        q_wf(p.objective.constant),
        q_wf(p2.objective.constant),
        q_le(p.objective.constant, p2.objective.constant),
{
    let v = min_idx(p.objective.coeffs);
    let p1 = spec_set_ratios(p, v);
    let r = spec_pivot_row(p1.rows)->Some_0;
    assert(spec_pivot_row(p1.rows) == Some(r));
    lemma_pivot_row_some(p1.rows);
    assert(0 <= r < p1.rows.len());
    lemma_min_idx_bounds(p.objective.coeffs);
    // the entering column's objective entry is negative
    assert(!spec_is_optimal(p));
    let w = choose|i: int| 0 <= i < p.objective.coeffs.len() && !q_le(
        q_zero(),
        p.objective.coeffs[i],
    );
    lemma_min_idx_le(p.objective.coeffs, w);
    let f = p.objective.coeffs[v];
    assert(q_lt(f, q_zero())) by {
        crate::rational::lemma_q_le_lt_trans(f, p.objective.coeffs[w], q_zero());
    }
    assert(f.0 < 0);
    // the pivot row's ratio, which becomes the normalized constant, is positive
    let row = p.rows[r];
    assert(p1.rows[r] == (QRow { ratio: spec_row_ratio(row, v), ..row }));
    let ratio = spec_row_ratio(row, v);
    assert(q_lt(q_zero(), ratio));
    assert(row.eq.coeffs[v].0 != 0);
    assert(ratio == q_div(row.eq.constant, row.eq.coeffs[v]));
    assert(ratio.0 > 0) by {
        assert(q_lt(q_zero(), ratio));
    }
    crate::rational::lemma_q_div_wf(row.eq.constant, row.eq.coeffs[v]);
    // the pivot composes: the new objective constant subtracts f times the
    // normalized pivot constant, which is exactly the ratio
    let pb = with_row_basic(p1, r, v);
    let norm = spec_normalize_eq(pb.rows[r].eq, v);
    assert(pb.rows[r].eq == row.eq);
    assert(norm.constant == ratio);
    let p3 = with_row_eq(pb, r, norm);
    assert(p3.objective == p.objective);
    assert(p3.rows[r].eq == norm);
    let p4 = spec_reduce_all(p3, r, v);
    assert(p4.objective.constant == q_sub(
        p.objective.constant,
        q_mul(p.objective.coeffs[v], ratio),
    ));
    assert(p2 == with_new_point(p4));
    assert(p2.objective.constant == p4.objective.constant);
    crate::rational::lemma_q_sub_mul_le(p.objective.constant, f, ratio);
}

/// Termination correctness at the tableau: when the optimality test holds,
/// every objective-row entry is nonnegative, so raising any single variable
/// by a nonnegative step changes the objective value by a nonpositive
/// amount: the reported point cannot be improved along one variable.
pub proof fn lemma_optimal_no_improvement(p: QProblem, v: int, t: (int, int))
    requires
        problem_wf(p),
        spec_is_optimal(p),
        0 <= v < p.objective.coeffs.len(),
        q_wf(t),
        q_le(q_zero(), t),
    ensures
        q_le(
            q_sub(p.objective.constant, q_mul(p.objective.coeffs[v], t)),
            p.objective.constant,
        ),
{
    let f = p.objective.coeffs[v];
    assert(q_le(q_zero(), f));
    assert(f.0 >= 0 && t.0 >= 0);
    let c = p.objective.constant;
    let m = q_mul(f, t);
    assert((c.0 * m.1 - m.0 * c.1) * c.1 <= c.0 * (c.1 * m.1) && c.1 * m.1 > 0)
        by (nonlinear_arith)
        requires
            c.1 > 0,
            f.1 > 0,
            t.1 > 0,
            m == (f.0 * t.0, f.1 * t.1),
            f.0 >= 0,
            t.0 >= 0,
    ;
}

/// Determinism of the solve: any two points that the reference run can
/// return for one starting tableau denote the same rationals, entry by
/// entry. Together with the contract of the engine this says that solving
/// the same input twice yields the same solution vector.
pub proof fn lemma_solve_deterministic(
    init: QProblem,
    out1: Seq<(int, int)>,
    out2: Seq<(int, int)>,
)
    requires
        solve_result_matches(init, out1),
        solve_result_matches(init, out2),
    ensures
        seq_q_eq(out1, out2),
{
    let f1 = choose|f: nat| run_gives(init, f, out1);
    let f2 = choose|f: nat| run_gives(init, f, out2);
    let s1 = spec_run(init, f1)->Some_0;
    let s2 = spec_run(init, f2)->Some_0;
    lemma_run_deterministic(init, f1, f2, s1, s2);
    assert forall|i: int| 0 <= i < out1.len() implies q_wf(#[trigger] out1[i]) && q_wf(
        #[trigger] out2[i],
    ) && q_eq(out1[i], out2[i]) by {
        assert(q_eq(out1[i], s1[i]));
        assert(q_eq(out2[i], s1[i]));
        crate::rational::lemma_q_eq_trans(out1[i], s1[i], out2[i]);
    }
}


/// Applying rows with well-formed constants to a well-formed point keeps
/// every entry well formed.
pub proof fn lemma_apply_rows_wf(point: Seq<(int, int)>, rows: Seq<QRow>)
    requires
        forall|i: int| 0 <= i < point.len() ==> q_wf(#[trigger] point[i]),
        forall|j: int| 0 <= j < rows.len() ==> q_wf((#[trigger] rows[j]).eq.constant),
        forall|j: int| 0 <= j < rows.len() ==> 0 <= (#[trigger] rows[j]).basic < point.len(),
    ensures
        apply_rows(point, rows).len() == point.len(),
        forall|i: int|
            0 <= i < point.len() ==> q_wf(#[trigger] apply_rows(point, rows)[i]),
    decreases rows.len(),
{
    lemma_apply_rows_len(point, rows);
    if rows.len() > 0 {
        assert forall|j: int| 0 <= j < rows.drop_last().len() implies q_wf(
            (#[trigger] rows.drop_last()[j]).eq.constant,
        ) && 0 <= rows.drop_last()[j].basic < point.len() by {
            assert(q_wf(rows[j].eq.constant));
            assert(0 <= rows[j].basic < point.len());
        }
        lemma_apply_rows_wf(point, rows.drop_last());
        lemma_apply_rows_len(point, rows.drop_last());
        assert(q_wf(rows[rows.len() - 1].eq.constant));
        assert(apply_rows(point, rows) == apply_rows(point, rows.drop_last()).update(
            rows.last().basic,
            rows.last().eq.constant,
        ));
    }
}

/// One pivot of the reference engine keeps the tableau well formed.
pub proof fn lemma_spec_step_wf(p: QProblem, p2: QProblem)
    requires
        problem_wf(p),
        spec_step(p) == QStep::Pivot(p2),
    ensures
        problem_wf(p2),
{
    let v = min_idx(p.objective.coeffs);
    lemma_min_idx_bounds(p.objective.coeffs);
    let p1 = spec_set_ratios(p, v);
    let r = spec_pivot_row(p1.rows)->Some_0;
    assert(spec_pivot_row(p1.rows) == Some(r));
    lemma_pivot_row_some(p1.rows);
    // the ratio column of p1 is well formed
    assert forall|j: int| 0 <= j < p1.rows.len() implies q_wf(
        (#[trigger] p1.rows[j]).ratio,
    ) && p1.rows[j] == (QRow { ratio: spec_row_ratio(p.rows[j], v), ..p.rows[j] }) by {
        assert(eq_wf(p.rows[j].eq));
        if p.rows[j].eq.coeffs[v].0 != 0 {
            crate::rational::lemma_q_div_wf(p.rows[j].eq.constant, p.rows[j].eq.coeffs[v]);
        }
    }
    assert(problem_wf(p1));
    // the pivot row's entry in the pivot column is not zero
    let row = p.rows[r];
    assert(q_lt(q_zero(), p1.rows[r].ratio));
    assert(row.eq.coeffs[v].0 != 0);
    let pb = with_row_basic(p1, r, v);
    assert forall|j: int| 0 <= j < pb.rows.len() implies eq_wf((#[trigger] pb.rows[j]).eq)
        && pb.rows[j].eq.coeffs.len() == pb.objective.coeffs.len() && q_wf(pb.rows[j].ratio) && 0
        <= pb.rows[j].basic < pb.objective.coeffs.len() by {
        assert(eq_wf(p1.rows[j].eq) && q_wf(p1.rows[j].ratio));
        if j != r {
            assert(pb.rows[j] == p1.rows[j]);
        }
    }
    assert(problem_wf(pb));
    let norm = spec_normalize_eq(pb.rows[r].eq, v);
    assert(pb.rows[r].eq == row.eq);
    assert forall|i: int| 0 <= i < norm.coeffs.len() implies q_wf(#[trigger] norm.coeffs[i]) by {
        if i != v {
            crate::rational::lemma_q_div_wf(row.eq.coeffs[i], row.eq.coeffs[v]);
        }
    }
    crate::rational::lemma_q_div_wf(row.eq.constant, row.eq.coeffs[v]);
    assert(eq_wf(norm));
    let p3 = with_row_eq(pb, r, norm);
    assert forall|j: int| 0 <= j < p3.rows.len() implies eq_wf((#[trigger] p3.rows[j]).eq)
        && p3.rows[j].eq.coeffs.len() == p3.objective.coeffs.len() && q_wf(p3.rows[j].ratio) && 0
        <= p3.rows[j].basic < p3.objective.coeffs.len() by {
        if j != r {
            assert(p3.rows[j] == pb.rows[j]);
        }
        assert(eq_wf(pb.rows[j].eq) && q_wf(pb.rows[j].ratio));
    }
    assert(problem_wf(p3));
    let p4 = spec_reduce_all(p3, r, v);
    assert forall|e: QEquation|
        eq_wf(e) && e.coeffs.len() == p3.objective.coeffs.len() implies eq_wf(
        #[trigger] spec_reduce_eq(e, norm, v),
    ) && spec_reduce_eq(e, norm, v).coeffs.len() == e.coeffs.len() by {
        let red = spec_reduce_eq(e, norm, v);
        let f = e.coeffs[v];
        assert forall|i: int| 0 <= i < red.coeffs.len() implies q_wf(#[trigger] red.coeffs[i]) by {
            crate::rational::lemma_q_mul_congr(f, norm.coeffs[i], f, norm.coeffs[i]);
            crate::rational::lemma_q_add_congr(
                e.coeffs[i],
                q_mul(f, norm.coeffs[i]),
                e.coeffs[i],
                q_mul(f, norm.coeffs[i]),
            );
        }
        crate::rational::lemma_q_mul_congr(f, norm.constant, f, norm.constant);
        crate::rational::lemma_q_add_congr(
            e.constant,
            q_mul(f, norm.constant),
            e.constant,
            q_mul(f, norm.constant),
        );
    }
    assert(p3.rows[r].eq == norm);
    assert forall|j: int| 0 <= j < p4.rows.len() implies eq_wf((#[trigger] p4.rows[j]).eq)
        && p4.rows[j].eq.coeffs.len() == p4.objective.coeffs.len() && q_wf(p4.rows[j].ratio) && 0
        <= p4.rows[j].basic < p4.objective.coeffs.len() by {
        assert(eq_wf(p3.rows[j].eq) && q_wf(p3.rows[j].ratio));
        if j == r {
            assert(p4.rows[j] == p3.rows[j]);
        }
    }
    assert(eq_wf(p4.objective));
    assert(problem_wf(p4));
    lemma_apply_rows_wf(Seq::new(p4.point.len(), |i: int| q_zero()), p4.rows);
    assert(p2 == with_new_point(p4));
    assert forall|i: int| 0 <= i < p2.point.len() implies q_wf(#[trigger] p2.point[i]) by {
        assert(p2.point[i] == apply_rows(
            Seq::new(p4.point.len(), |t: int| q_zero()),
            p4.rows,
        )[i]);
    }
    assert(problem_wf(p2));
}

/// Monotonic improvement across a whole run: along any chain of pivots the
/// objective row's constant, the engine's record of the objective value,
/// never decreases from one reported tableau to any later one.
pub proof fn lemma_iter_objective_monotone(p: QProblem, k: nat, q: QProblem)
    requires
        problem_wf(p),
        iter_pivots(p, k) == Some(q),
    ensures
        problem_wf(q),
        q_le(p.objective.constant, q.objective.constant),
    decreases k,
{
    if k == 0 {
        assert(q == p);
        assert(q_le(p.objective.constant, p.objective.constant));
    } else {
        match spec_step(p) {
            QStep::Pivot(pnext) => {
                lemma_spec_step_wf(p, pnext);
                lemma_step_objective_monotone(p, pnext);
                lemma_iter_objective_monotone(pnext, (k - 1) as nat, q);
                crate::rational::lemma_q_le_trans(
                    p.objective.constant,
                    pnext.objective.constant,
                    q.objective.constant,
                );
            },
            QStep::Optimal(t) => {
                assert(false);
            },
            QStep::Stalled(t) => {
                assert(false);
            },
        }
    }
}


// ---------------------------------------------------------------------------
// The basis invariant: each row owns its basic variable.
// ---------------------------------------------------------------------------

/// The dictionary discipline of the tableau: each basic variable's column
/// is the unit vector of its row, and its objective-row entry (reduced
/// cost) is zero.
pub open spec fn basis_ok(p: QProblem) -> bool {
    &&& forall|j: int, k: int|
        0 <= j < p.rows.len() && 0 <= k < p.rows.len() ==> q_eq(
            #[trigger] p.rows[j].eq.coeffs[p.rows[k].basic],
            if j == k {
                q_one()
            } else {
                q_zero()
            },
        )
    &&& forall|k: int|
        0 <= k < p.rows.len() ==> q_eq(#[trigger] p.objective.coeffs[p.rows[k].basic], q_zero())
}

/// The basis discipline makes the basic variables pairwise distinct.
pub proof fn lemma_basis_distinct(p: QProblem, j: int, k: int)
    requires
        problem_wf(p),
        basis_ok(p),
        0 <= j < p.rows.len(),
        0 <= k < p.rows.len(),
        j != k,
    ensures
        p.rows[j].basic != p.rows[k].basic,
{
    if p.rows[j].basic == p.rows[k].basic {
        let x = p.rows[j].eq.coeffs[p.rows[j].basic];
        assert(q_eq(x, q_one()));
        assert(q_eq(x, q_zero()));
        assert(q_wf(x)) by {
            assert(eq_wf(p.rows[j].eq));
        }
        assert(false) by (nonlinear_arith)
            requires
                x.1 > 0,
                x.0 * 1 == 1 * x.1,
                x.0 * 1 == 0 * x.1,
        ;
    }
}

/// The initial tableau obeys the basis discipline: each slack variable's
/// column is exactly its constraint's unit column, and the objective row is
/// zero there.
pub proof fn lemma_initial_basis_ok(obj: Seq<(int, int)>, cons: Seq<QConstraint>)
    requires
        forall|t: int| 0 <= t < cons.len() ==> (#[trigger] cons[t]).coeffs.len() == obj.len(),
    ensures
        basis_ok(initial_problem(obj, cons)),
{
    let p = initial_problem(obj, cons);
    let n = obj.len() as int;
    let m = cons.len() as int;
    assert forall|j: int, k: int|
        0 <= j < p.rows.len() && 0 <= k < p.rows.len() implies q_eq(
        #[trigger] p.rows[j].eq.coeffs[p.rows[k].basic],
        if j == k {
            q_one()
        } else {
            q_zero()
        },
    ) by {
        assert(p.rows[j] == initial_row(cons[j], j, n, m));
        assert(p.rows[k] == initial_row(cons[k], k, n, m));
        assert(p.rows[k].basic == n + k);
        assert(p.rows[j].eq.coeffs == cons[j].coeffs + slack_block(j, m));
        assert(p.rows[j].eq.coeffs[n + k] == slack_block(j, m)[k]);
        if j == k {
            assert(p.rows[j].eq.coeffs[n + k] == q_one());
        } else {
            assert(p.rows[j].eq.coeffs[n + k] == q_zero());
        }
    }
    assert forall|k: int| 0 <= k < p.rows.len() implies q_eq(
        #[trigger] p.objective.coeffs[p.rows[k].basic],
        q_zero(),
    ) by {
        assert(p.rows[k] == initial_row(cons[k], k, n, m));
        assert(p.rows[k].basic == n + k);
        assert(p.objective.coeffs == obj.map_values(|a: (int, int)| (-a.0, a.1)) + Seq::new(
            m as nat,
            |t: int| q_zero(),
        ));
        assert(p.objective.coeffs[n + k] == q_zero());
    }
}

/// One pivot preserves the basis discipline: the entering variable's column
/// becomes its new row's unit vector, and every other basic column is
/// untouched in value.
pub proof fn lemma_step_preserves_basis(p: QProblem, p2: QProblem)
    requires
        problem_wf(p),
        basis_ok(p),
        spec_step(p) == QStep::Pivot(p2),
    ensures
        basis_ok(p2),
    decreases 0int,
{
    let width = p.objective.coeffs.len();
    let v = min_idx(p.objective.coeffs);
    lemma_min_idx_bounds(p.objective.coeffs);
    let p1 = spec_set_ratios(p, v);
    let r = spec_pivot_row(p1.rows)->Some_0;
    assert(spec_pivot_row(p1.rows) == Some(r));
    lemma_pivot_row_some(p1.rows);
    assert forall|j: int| 0 <= j < p1.rows.len() implies (#[trigger] p1.rows[j]) == (QRow {
        ratio: spec_row_ratio(p.rows[j], v),
        ..p.rows[j]
    }) by {}
    // the entering column's objective entry is strictly negative, so the
    // entering variable is not a basic variable of any row
    assert(!spec_is_optimal(p));
    let w = choose|i: int|
        0 <= i < p.objective.coeffs.len() && !q_le(q_zero(), p.objective.coeffs[i]);
    lemma_min_idx_le(p.objective.coeffs, w);
    let fo = p.objective.coeffs[v];
    assert(q_lt(fo, q_zero())) by {
        crate::rational::lemma_q_le_lt_trans(fo, p.objective.coeffs[w], q_zero());
    }
    assert forall|k: int| 0 <= k < p.rows.len() implies p.rows[k].basic != v by {
        if p.rows[k].basic == v {
            assert(q_eq(fo, q_zero()));
            crate::rational::lemma_q_zero_not_lt(fo);
        }
    }
    // the pivot row's entry in the entering column is not zero
    let row = p.rows[r];
    assert(q_lt(q_zero(), p1.rows[r].ratio));
    assert(row.eq.coeffs[v].0 != 0);
    let c = row.eq.coeffs[v];
    // unfold the pivot's composition
    let pb = with_row_basic(p1, r, v);
    let norm = spec_normalize_eq(pb.rows[r].eq, v);
    assert(pb.rows[r].eq == row.eq);
    let p3 = with_row_eq(pb, r, norm);
    let p4 = spec_reduce_all(p3, r, v);
    assert(p2 == with_new_point(p4));
    assert(p4.rows.len() == p.rows.len());
    assert(norm.coeffs[v] == q_one());
    assert forall|k: int| 0 <= k < p.rows.len() && k != r implies q_eq(
        #[trigger] norm.coeffs[p.rows[k].basic],
        q_zero(),
    ) && q_wf(norm.coeffs[p.rows[k].basic]) by {
        let b = p.rows[k].basic;
        assert(0 <= b < width);
        assert(b != v);
        assert(norm.coeffs[b] == q_div(row.eq.coeffs[b], c));
        assert(q_eq(row.eq.coeffs[b], q_zero()));
        assert(q_wf(row.eq.coeffs[b]));
        crate::rational::lemma_q_div_zero(row.eq.coeffs[b], c);
    }
    // basic variables of the new tableau
    assert(p4.rows[r].basic == v);
    assert forall|k: int| 0 <= k < p.rows.len() && k != r implies (#[trigger] p4.rows[k]).basic
        == p.rows[k].basic by {}
    // the unit-column part
    assert forall|j: int, k: int|
        0 <= j < p4.rows.len() && 0 <= k < p4.rows.len() implies q_eq(
        #[trigger] p4.rows[j].eq.coeffs[p4.rows[k].basic],
        if j == k {
            q_one()
        } else {
            q_zero()
        },
    ) by {
        lemma_basis_column(p, p2, p4, norm, r, v, c, j, k);
    }
    // the reduced-cost part
    assert forall|k: int| 0 <= k < p4.rows.len() implies q_eq(
        #[trigger] p4.objective.coeffs[p4.rows[k].basic],
        q_zero(),
    ) by {
        assert(p4.objective == spec_reduce_eq(p3.objective, norm, v));
        assert(p3.objective == p.objective);
        if k == r {
            assert(p4.rows[k].basic == v);
            assert(p4.objective.coeffs[v] == q_sub(fo, q_mul(fo, norm.coeffs[v])));
            crate::rational::lemma_q_sub_self_one(fo);
        } else {
            let b = p.rows[k].basic;
            assert(p4.rows[k].basic == b);
            assert(0 <= b < width);
            assert(p4.objective.coeffs[b] == q_sub(
                p.objective.coeffs[b],
                q_mul(fo, norm.coeffs[b]),
            ));
            assert(q_eq(norm.coeffs[b], q_zero()) && q_wf(norm.coeffs[b]));
            crate::rational::lemma_q_mul_zero(fo, norm.coeffs[b]);
            crate::rational::lemma_q_sub_zero(p.objective.coeffs[b], q_mul(fo, norm.coeffs[b]));
            assert(q_eq(p.objective.coeffs[b], q_zero()));
            crate::rational::lemma_q_eq_trans(
                q_sub(p.objective.coeffs[b], q_mul(fo, norm.coeffs[b])),
                p.objective.coeffs[b],
                q_zero(),
            );
        }
    }
    assert(basis_ok(p2)) by {
        assert(p2.rows == p4.rows);
        assert(p2.objective == p4.objective);
    }
}

/// One entry of the unit-column argument: the entering column becomes the
/// pivot row's unit vector, and every other basic column keeps its values.
proof fn lemma_basis_column(
    p: QProblem,
    p2: QProblem,
    p4: QProblem,
    norm: QEquation,
    r: int,
    v: int,
    c: (int, int),
    j: int,
    k: int,
)
    requires
        problem_wf(p),
        basis_ok(p),
        spec_step(p) == QStep::Pivot(p2),
        0 <= j < p4.rows.len(),
        0 <= k < p4.rows.len(),
        ({
            let v2 = min_idx(p.objective.coeffs);
            let p1 = spec_set_ratios(p, v2);
            let r2 = spec_pivot_row(p1.rows)->Some_0;
            let pb = with_row_basic(p1, r2, v2);
            &&& v == v2
            &&& r == r2
            &&& spec_pivot_row(p1.rows) == Some(r2)
            &&& norm == spec_normalize_eq(pb.rows[r2].eq, v2)
            &&& c == p.rows[r2].eq.coeffs[v2]
            &&& c.0 != 0
            &&& p4 == spec_reduce_all(with_row_eq(pb, r2, norm), r2, v2)
            &&& (forall|t: int| 0 <= t < p.rows.len() ==> (#[trigger] p.rows[t]).basic != v2)
            &&& (forall|t: int|
                0 <= t < p.rows.len() && t != r2 ==> q_eq(
                    #[trigger] norm.coeffs[p.rows[t].basic],
                    q_zero(),
                ) && q_wf(norm.coeffs[p.rows[t].basic]))
        }),
    ensures
        q_eq(
            p4.rows[j].eq.coeffs[p4.rows[k].basic],
            if j == k {
                q_one()
            } else {
                q_zero()
            },
        ),
{
    let width = p.objective.coeffs.len();
    let row = p.rows[r];
    let p1 = spec_set_ratios(p, v);
    lemma_min_idx_bounds(p.objective.coeffs);
    lemma_pivot_row_some(p1.rows);
    assert(p1.rows.len() == p.rows.len());
    assert(0 <= r < p.rows.len());
    assert(0 <= v < width);
    assert(p1.rows[r] == (QRow { ratio: spec_row_ratio(p.rows[r], v), ..p.rows[r] }));
    let pb = with_row_basic(p1, r, v);
    assert(pb.rows[r] == (QRow { basic: v, ..p1.rows[r] }));
    assert(pb.rows[r].eq == row.eq);
    assert(row.eq.coeffs.len() == width);
    assert(norm.coeffs.len() == width);
    assert(norm.coeffs[v] == q_one());
    let p3 = with_row_eq(pb, r, norm);
    assert(p3.rows[r] == (QRow { eq: norm, ..pb.rows[r] }));
    assert forall|t: int| 0 <= t < p.rows.len() && t != r implies (#[trigger] p3.rows[t]) == (
    QRow { ratio: spec_row_ratio(p.rows[t], v), ..p.rows[t] }) by {
        assert(pb.rows[t] == p1.rows[t]);
        assert(p3.rows[t] == pb.rows[t]);
    }
    assert(p4 == spec_reduce_all(p3, r, v));
    assert(p4.rows.len() == p.rows.len());
    assert(p4.rows[r] == p3.rows[r]);
    assert(p4.rows[r].basic == v);
    assert(p4.rows[r].eq == norm);
    assert forall|t: int| 0 <= t < p.rows.len() && t != r implies (#[trigger] p4.rows[t]).basic
        == p.rows[t].basic && p4.rows[t].eq == spec_reduce_eq(p.rows[t].eq, norm, v) by {
        assert(p4.rows[t] == (QRow { eq: spec_reduce_eq(p3.rows[t].eq, p3.rows[r].eq, v), ..p3.rows[t] }));
        assert(p3.rows[t].eq == p.rows[t].eq);
        assert(p3.rows[r].eq == norm);
    }
    if k == r {
        // the entering column
        if j == r {
            assert(p4.rows[j].eq.coeffs[v] == q_one());
            assert(q_eq(q_one(), q_one()));
        } else {
            let fj = p.rows[j].eq.coeffs[v];
            assert(p4.rows[j].eq == spec_reduce_eq(p.rows[j].eq, norm, v));
            assert(p4.rows[j].eq.coeffs[v] == q_sub(fj, q_mul(fj, q_one())));
            assert(q_wf(fj));
            crate::rational::lemma_q_sub_self_one(fj);
        }
    } else {
        let b = p.rows[k].basic;
        assert(p4.rows[k].basic == b);
        assert(0 <= b < width);
        assert(b != v);
        if j == r {
            assert(p4.rows[j].eq.coeffs[b] == norm.coeffs[b]);
            assert(q_eq(norm.coeffs[b], q_zero()));
        } else {
            let fj = p.rows[j].eq.coeffs[v];
            assert(p4.rows[j].eq == spec_reduce_eq(p.rows[j].eq, norm, v));
            assert(p4.rows[j].eq.coeffs[b] == q_sub(
                p.rows[j].eq.coeffs[b],
                q_mul(fj, norm.coeffs[b]),
            ));
            assert(q_wf(fj) && q_wf(p.rows[j].eq.coeffs[b]));
            assert(q_eq(norm.coeffs[b], q_zero()) && q_wf(norm.coeffs[b]));
            crate::rational::lemma_q_mul_zero(fj, norm.coeffs[b]);
            crate::rational::lemma_q_sub_zero(p.rows[j].eq.coeffs[b], q_mul(fj, norm.coeffs[b]));
            assert(q_eq(p.rows[j].eq.coeffs[b], if j == k {
                q_one()
            } else {
                q_zero()
            }));
            crate::rational::lemma_q_eq_trans(
                q_sub(p.rows[j].eq.coeffs[b], q_mul(fj, norm.coeffs[b])),
                p.rows[j].eq.coeffs[b],
                if j == k {
                    q_one()
                } else {
                    q_zero()
                },
            );
        }
    }
}


/// Variable `i` is some row's basic variable.
pub open spec fn is_basic_var(p: QProblem, i: int) -> bool {
    exists|k: int| 0 <= k < p.rows.len() && (#[trigger] p.rows[k]).basic == i
}

/// With pairwise distinct basic variables, recomputing the point writes
/// each row's constant at its basic variable.
proof fn lemma_apply_rows_at(point: Seq<(int, int)>, rows: Seq<QRow>, k: int)
    requires
        0 <= k < rows.len(),
        forall|a: int, b: int|
            0 <= a < rows.len() && 0 <= b < rows.len() && a != b ==> (#[trigger] rows[a]).basic
                != (#[trigger] rows[b]).basic,
        forall|a: int| 0 <= a < rows.len() ==> 0 <= (#[trigger] rows[a]).basic < point.len(),
    ensures
        apply_rows(point, rows)[rows[k].basic] == rows[k].eq.constant,
    decreases rows.len(),
{
    lemma_apply_rows_len(point, rows.drop_last());
    let last = rows.len() - 1;
    if k == last {
        assert(apply_rows(point, rows) == apply_rows(point, rows.drop_last()).update(
            rows[last].basic,
            rows[last].eq.constant,
        ));
    } else {
        assert forall|a: int, b: int|
            0 <= a < rows.drop_last().len() && 0 <= b < rows.drop_last().len() && a != b implies (
        #[trigger] rows.drop_last()[a]).basic != (#[trigger] rows.drop_last()[b]).basic by {
            assert(rows[a].basic != rows[b].basic);
        }
        assert forall|a: int| 0 <= a < rows.drop_last().len() implies 0 <= (
        #[trigger] rows.drop_last()[a]).basic < point.len() by {
            assert(0 <= rows[a].basic < point.len());
        }
        lemma_apply_rows_at(point, rows.drop_last(), k);
        assert(rows[last].basic != rows[k].basic);
        assert(apply_rows(point, rows) == apply_rows(point, rows.drop_last()).update(
            rows[last].basic,
            rows[last].eq.constant,
        ));
    }
}

/// A variable that no row owns keeps its prior value when the point is
/// recomputed.
proof fn lemma_apply_rows_untouched(point: Seq<(int, int)>, rows: Seq<QRow>, i: int)
    requires
        0 <= i < point.len(),
        forall|a: int| 0 <= a < rows.len() ==> (#[trigger] rows[a]).basic != i,
        forall|a: int| 0 <= a < rows.len() ==> 0 <= (#[trigger] rows[a]).basic < point.len(),
    ensures
        apply_rows(point, rows)[i] == point[i],
    decreases rows.len(),
{
    if rows.len() > 0 {
        let last = rows.len() - 1;
        assert forall|a: int| 0 <= a < rows.drop_last().len() implies (
        #[trigger] rows.drop_last()[a]).basic != i && 0 <= rows.drop_last()[a].basic
            < point.len() by {
            assert(rows[a].basic != i);
            assert(0 <= rows[a].basic < point.len());
        }
        lemma_apply_rows_untouched(point, rows.drop_last(), i);
        lemma_apply_rows_len(point, rows.drop_last());
        assert(rows[last].basic != i);
        assert(apply_rows(point, rows) == apply_rows(point, rows.drop_last()).update(
            rows[last].basic,
            rows[last].eq.constant,
        ));
    }
}

/// After every pivot the point is the dictionary reading of the rows: each
/// basic variable carries exactly its row's constant, and every variable
/// that no row owns is exactly zero.
pub proof fn lemma_step_point_reads_rows(p: QProblem, p2: QProblem)
    requires
        problem_wf(p),
        basis_ok(p),
        spec_step(p) == QStep::Pivot(p2),
    ensures
        problem_wf(p2),
        basis_ok(p2),
        forall|k: int|
            0 <= k < p2.rows.len() ==> #[trigger] p2.point[p2.rows[k].basic]
                == p2.rows[k].eq.constant,
        forall|i: int|
            0 <= i < p2.point.len() && !is_basic_var(p2, i) ==> #[trigger] p2.point[i] == q_zero(),
{
    lemma_spec_step_wf(p, p2);
    lemma_step_preserves_basis(p, p2);
    let v = min_idx(p.objective.coeffs);
    let p1 = spec_set_ratios(p, v);
    let r = spec_pivot_row(p1.rows)->Some_0;
    let pb = with_row_basic(p1, r, v);
    let norm = spec_normalize_eq(pb.rows[r].eq, v);
    let p4 = spec_reduce_all(with_row_eq(pb, r, norm), r, v);
    assert(p2 == with_new_point(p4));
    assert(p2.rows == p4.rows);
    let zeros = Seq::new(p4.point.len(), |t: int| q_zero());
    assert(p2.point == apply_rows(zeros, p4.rows));
    assert(zeros.len() == p2.objective.coeffs.len()) by {
        assert(p4.point == p.point);
    }
    assert forall|a: int, b: int|
        0 <= a < p2.rows.len() && 0 <= b < p2.rows.len() && a != b implies (
    #[trigger] p2.rows[a]).basic != (#[trigger] p2.rows[b]).basic by {
        lemma_basis_distinct(p2, a, b);
    }
    assert forall|k: int| 0 <= k < p2.rows.len() implies #[trigger] p2.point[p2.rows[k].basic]
        == p2.rows[k].eq.constant by {
        lemma_apply_rows_at(zeros, p4.rows, k);
    }
    assert forall|i: int|
        0 <= i < p2.point.len() && !is_basic_var(p2, i) implies #[trigger] p2.point[i]
        == q_zero() by {
        lemma_apply_rows_len(zeros, p4.rows);
        assert forall|a: int| 0 <= a < p4.rows.len() implies (#[trigger] p4.rows[a]).basic
            != i by {
            if p4.rows[a].basic == i {
                assert(is_basic_var(p2, i));
            }
        }
        lemma_apply_rows_untouched(zeros, p4.rows, i);
        assert(zeros[i] == q_zero());
    }
}


/// One step of the dictionary-reading argument: in a dot product against
/// the point, the only position that contributes is the one owned by row
/// `j`; there the coefficient is one and the point holds the constant.
proof fn lemma_q_dot_pick(c: Seq<(int, int)>, x: Seq<(int, int)>, rows: Seq<QRow>, j: int, t: int)
    requires
        c.len() == x.len(),
        0 <= t <= c.len(),
        0 <= j < rows.len(),
        forall|i: int| 0 <= i < c.len() ==> q_wf(#[trigger] c[i]),
        forall|i: int| 0 <= i < x.len() ==> q_wf(#[trigger] x[i]),
        forall|k: int| 0 <= k < rows.len() ==> 0 <= (#[trigger] rows[k]).basic < c.len(),
        forall|k: int| 0 <= k < rows.len() ==> q_wf((#[trigger] rows[k]).eq.constant),
        forall|k: int|
            0 <= k < rows.len() ==> x[(#[trigger] rows[k]).basic] == rows[k].eq.constant,
        forall|i: int|
            0 <= i < x.len() && !(exists|k: int|
                0 <= k < rows.len() && (#[trigger] rows[k]).basic == i) ==> #[trigger] x[i]
                == q_zero(),
        forall|k: int|
            0 <= k < rows.len() ==> q_eq(
                c[(#[trigger] rows[k]).basic],
                if k == j {
                    q_one()
                } else {
                    q_zero()
                },
            ),
    ensures
        q_wf(q_dot(c.take(t), x.take(t))),
        q_eq(
            q_dot(c.take(t), x.take(t)),
            if rows[j].basic < t {
                rows[j].eq.constant
            } else {
                q_zero()
            },
        ),
    decreases t,
{
    if t == 0 {
        assert(c.take(0).len() == 0);
        assert(q_dot(c.take(0), x.take(0)) == q_zero());
    } else {
        lemma_q_dot_pick(c, x, rows, j, t - 1);
        let i = t - 1;
        assert(c.take(t).drop_last() =~= c.take(t - 1));
        assert(x.take(t).drop_last() =~= x.take(t - 1));
        assert(c.take(t).last() == c[i]);
        assert(x.take(t).last() == x[i]);
        let prev = q_dot(c.take(t - 1), x.take(t - 1));
        let term = q_mul(c[i], x[i]);
        assert(q_dot(c.take(t), x.take(t)) == q_add(prev, term));
        assert(q_wf(c[i]) && q_wf(x[i]));
        if exists|k: int| 0 <= k < rows.len() && (#[trigger] rows[k]).basic == i {
            let k = choose|k: int| 0 <= k < rows.len() && (#[trigger] rows[k]).basic == i;
            assert(x[i] == rows[k].eq.constant);
            if k == j {
                // the owned position: coefficient one, value the constant
                crate::rational::lemma_q_mul_one(c[i], x[i]);
                crate::rational::lemma_q_add_congr(prev, term, q_zero(), x[i]);
                crate::rational::lemma_q_add_zero_left(q_zero(), x[i]);
                crate::rational::lemma_q_eq_trans(
                    q_add(prev, term),
                    q_add(q_zero(), x[i]),
                    x[i],
                );
                assert(rows[j].basic == i);
            } else {
                // another row's position: the coefficient is zero in value
                assert(q_eq(c[i], q_zero()));
                crate::rational::lemma_q_mul_zero_left(c[i], x[i]);
                lemma_q_dot_step_drop(prev, term, rows[j].eq.constant, rows[j].basic < t - 1);
                if rows[j].basic == i {
                    assert(q_eq(c[i], q_one()));
                    assert(q_eq(c[i], q_zero()));
                    let ci = c[i];
                    assert(false) by (nonlinear_arith)
                        requires
                            ci.1 > 0,
                            ci.0 * 1 == 1 * ci.1,
                            ci.0 * 1 == 0 * ci.1,
                    ;
                }
                assert((rows[j].basic < t) == (rows[j].basic < t - 1));
            }
        } else {
            // an unowned position: the point holds zero there
            assert(x[i] == q_zero());
            crate::rational::lemma_q_mul_zero(c[i], x[i]);
            lemma_q_dot_step_drop(prev, term, rows[j].eq.constant, rows[j].basic < t - 1);
            assert(rows[j].basic != i);
            assert((rows[j].basic < t) == (rows[j].basic < t - 1));
        }
    }
}

/// Adding a zero-valued term keeps the running sum's value.
proof fn lemma_q_dot_step_drop(prev: (int, int), term: (int, int), goal: (int, int), hit: bool)
    requires
        q_wf(prev),
        q_wf(term),
        q_wf(goal),
        q_eq(term, q_zero()),
        q_eq(
            prev,
            if hit {
                goal
            } else {
                q_zero()
            },
        ),
    ensures
        q_wf(q_add(prev, term)),
        q_eq(
            q_add(prev, term),
            if hit {
                goal
            } else {
                q_zero()
            },
        ),
{
    crate::rational::lemma_q_add_congr(prev, term, prev, q_zero());
    assert(q_eq(q_add(prev, q_zero()), prev)) by (nonlinear_arith)
        requires
            prev.1 > 0,
    ;
    crate::rational::lemma_q_eq_trans(q_add(prev, term), q_add(prev, q_zero()), prev);
    if hit {
        crate::rational::lemma_q_eq_trans(q_add(prev, term), prev, goal);
    } else {
        crate::rational::lemma_q_eq_trans(q_add(prev, term), prev, q_zero());
    }
}

/// After every pivot the point satisfies every row equation of the current
/// tableau exactly: the dictionary the engine maintains is consistent, so
/// the reported point solves the tableau's equality system.
pub proof fn lemma_step_point_satisfies_rows(p: QProblem, p2: QProblem)
    requires
        problem_wf(p),
        basis_ok(p),
        spec_step(p) == QStep::Pivot(p2),
    ensures
        forall|j: int|
            0 <= j < p2.rows.len() ==> q_eq(
                q_dot((#[trigger] p2.rows[j]).eq.coeffs, p2.point),
                p2.rows[j].eq.constant,
            ),
{
    lemma_spec_step_wf(p, p2);
    lemma_step_preserves_basis(p, p2);
    lemma_step_point_reads_rows(p, p2);
    assert forall|j: int| 0 <= j < p2.rows.len() implies q_eq(
        q_dot((#[trigger] p2.rows[j]).eq.coeffs, p2.point),
        p2.rows[j].eq.constant,
    ) by {
        let c = p2.rows[j].eq.coeffs;
        let x = p2.point;
        let width = p2.objective.coeffs.len();
        assert(c.len() == width && x.len() == width);
        assert forall|i: int|
            0 <= i < x.len() && !(exists|k: int|
                0 <= k < p2.rows.len() && (#[trigger] p2.rows[k]).basic == i) implies #[trigger] x[i]
            == q_zero() by {
            assert(!is_basic_var(p2, i));
        }
        assert forall|k: int| 0 <= k < p2.rows.len() implies q_eq(
            c[(#[trigger] p2.rows[k]).basic],
            if k == j {
                q_one()
            } else {
                q_zero()
            },
        ) by {
            assert(q_eq(p2.rows[j].eq.coeffs[p2.rows[k].basic], if j == k {
                q_one()
            } else {
                q_zero()
            }));
        }
        lemma_q_dot_pick(c, x, p2.rows, j, width as int);
        assert(c.take(width as int) =~= c);
        assert(x.take(width as int) =~= x);
        assert(0 <= p2.rows[j].basic < width);
    }
}


/// The initial tableau is already a consistent dictionary: its point
/// satisfies every row equation exactly (each slack variable absorbs its
/// whole bound).
pub proof fn lemma_initial_point_satisfies_rows(obj: Seq<(int, int)>, cons: Seq<QConstraint>, j: int)
    requires
        0 <= j < cons.len(),
        forall|t: int| 0 <= t < obj.len() ==> q_wf(#[trigger] obj[t]),
        forall|t: int| 0 <= t < cons.len() ==> constraint_wf(#[trigger] cons[t]),
        forall|t: int| 0 <= t < cons.len() ==> (#[trigger] cons[t]).coeffs.len() == obj.len(),
    ensures
        q_eq(
            q_dot(
                initial_problem(obj, cons).rows[j].eq.coeffs,
                initial_problem(obj, cons).point,
            ),
            initial_problem(obj, cons).rows[j].eq.constant,
        ),
{
    let p = initial_problem(obj, cons);
    let n = obj.len() as int;
    let m = cons.len() as int;
    let width = n + m;
    lemma_initial_basis_ok(obj, cons);
    let c = p.rows[j].eq.coeffs;
    let x = p.point;
    assert(p.rows[j] == initial_row(cons[j], j, n, m));
    assert(c.len() == width);
    assert(x.len() == width);
    assert forall|i: int| 0 <= i < c.len() implies q_wf(#[trigger] c[i]) by {
        assert(constraint_wf(cons[j]));
        if i < cons[j].coeffs.len() {
            assert(c[i] == cons[j].coeffs[i]);
        } else {
            assert(c[i] == slack_block(j, m)[i - n]);
        }
    }
    assert forall|i: int| 0 <= i < x.len() implies q_wf(#[trigger] x[i]) by {
        if i < n {
            assert(x[i] == q_zero());
        } else {
            assert(x[i] == cons.map_values(|cc: QConstraint| cc.bound)[i - n]);
            assert(constraint_wf(cons[i - n]));
        }
    }
    assert forall|k: int| 0 <= k < p.rows.len() implies 0 <= (#[trigger] p.rows[k]).basic
        < c.len() && q_wf(p.rows[k].eq.constant) && x[p.rows[k].basic]
        == p.rows[k].eq.constant by {
        assert(p.rows[k] == initial_row(cons[k], k, n, m));
        assert(constraint_wf(cons[k]));
        assert(x[n + k] == cons.map_values(|cc: QConstraint| cc.bound)[k]);
    }
    assert forall|i: int|
        0 <= i < x.len() && !(exists|k: int|
            0 <= k < p.rows.len() && (#[trigger] p.rows[k]).basic == i) implies #[trigger] x[i]
        == q_zero() by {
        if i >= n {
            let k = i - n;
            assert(p.rows[k] == initial_row(cons[k], k, n, m));
            assert(p.rows[k].basic == i);
        } else {
            assert(x[i] == q_zero());
        }
    }
    assert forall|k: int| 0 <= k < p.rows.len() implies q_eq(
        c[(#[trigger] p.rows[k]).basic],
        if k == j {
            q_one()
        } else {
            q_zero()
        },
    ) by {
        assert(q_eq(p.rows[j].eq.coeffs[p.rows[k].basic], if j == k {
            q_one()
        } else {
            q_zero()
        }));
    }
    lemma_q_dot_pick(c, x, p.rows, j, width);
    assert(c.take(width) =~= c);
    assert(x.take(width) =~= x);
    assert(0 <= p.rows[j].basic < width);
}


/// Along any chain of pivots from a well-formed dictionary, every reached
/// tableau is again a well-formed dictionary: the shape, the basis
/// discipline, and hence the consistency of the point all carry through
/// the whole run.
pub proof fn lemma_iter_preserves_basis(p: QProblem, k: nat, q: QProblem)
    requires
        problem_wf(p),
        basis_ok(p),
        iter_pivots(p, k) == Some(q),
    ensures
        problem_wf(q),
        basis_ok(q),
    decreases k,
{
    if k > 0 {
        match spec_step(p) {
            QStep::Pivot(pnext) => {
                lemma_spec_step_wf(p, pnext);
                lemma_step_preserves_basis(p, pnext);
                lemma_iter_preserves_basis(pnext, (k - 1) as nat, q);
            },
            QStep::Optimal(t) => {
                assert(false);
            },
            QStep::Stalled(t) => {
                assert(false);
            },
        }
    }
}

} // verus!
