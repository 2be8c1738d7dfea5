use simplex::rational::Rat;
use simplex::solve;
use simplex::tabular as sut;
use simplex::tabular::{ProblemObserver, Value};

fn frac(n: i64, d: i64) -> Value {
    Rat::new(n, d)
}

/// Exact comparison of two rationals held as (numerator, denominator) pairs
/// with positive denominators.
fn le(a: (i128, i128), b: (i128, i128)) -> bool {
    a.0 * b.1 <= b.0 * a.1
}

fn plus(a: (i128, i128), b: (i128, i128)) -> (i128, i128) {
    (a.0 * b.1 + b.0 * a.1, a.1 * b.1)
}

fn times(a: (i128, i128), b: (i128, i128)) -> (i128, i128) {
    (a.0 * b.0, a.1 * b.1)
}

fn pair(r: &Rat) -> (i128, i128) {
    (r.num as i128, r.den as i128)
}

fn dot(coeffs: &[Rat], point: &[Rat]) -> (i128, i128) {
    let mut acc: (i128, i128) = (0, 1);
    for (c, x) in coeffs.iter().zip(point.iter()) {
        acc = plus(acc, times(pair(c), pair(x)));
    }
    acc
}

#[test]
fn solution_satisfies_every_original_constraint() {
    let objective = vec![frac(1, 1), frac(1, 1)];
    let constraints = vec![
        sut::UpperBoundConstraint {
            coefficients: vec![frac(1, 1), frac(2, 1)],
            bound: frac(3, 1),
        },
        sut::UpperBoundConstraint {
            coefficients: vec![frac(2, 1), frac(1, 1)],
            bound: frac(3, 1),
        },
    ];
    let solution = solve(&objective, &constraints).unwrap();
    for c in &constraints {
        let lhs = dot(&c.coefficients, &solution);
        assert!(le(lhs, pair(&c.bound)));
    }
    for x in &solution {
        assert!(le((0, 1), pair(x)));
    }
}

struct ValueTrace {
    objective: Vec<Rat>,
    values: Vec<(i128, i128)>,
}

impl ProblemObserver for ValueTrace {
    fn observe(&mut self, problem: sut::Problem) {
        // the structural slice of the point, against the caller's objective
        let value = dot(&self.objective, &problem.point[..self.objective.len()]);
        self.values.push(value);
    }
}

#[test]
fn objective_value_never_decreases_across_snapshots() {
    let objective = vec![frac(1, 1), frac(1, 1)];
    let constraints = vec![
        sut::UpperBoundConstraint {
            coefficients: vec![frac(1, 1), frac(2, 1)],
            bound: frac(3, 1),
        },
        sut::UpperBoundConstraint {
            coefficients: vec![frac(2, 1), frac(1, 1)],
            bound: frac(3, 1),
        },
    ];
    let problem = sut::Problem::new(&objective, &constraints);
    let mut trace = ValueTrace { objective, values: Vec::new() };
    let _ = sut::solve(problem, &mut trace);
    assert!(trace.values.len() >= 2);
    for w in trace.values.windows(2) {
        assert!(le(w[0], w[1]));
    }
}

#[test]
fn optimal_tableau_has_no_negative_objective_entry() {
    let objective = vec![frac(1, 1), frac(1, 1)];
    let constraints = vec![
        sut::UpperBoundConstraint {
            coefficients: vec![frac(2, 1), frac(0, 1)],
            bound: frac(6, 1),
        },
        sut::UpperBoundConstraint {
            coefficients: vec![frac(0, 1), frac(4, 1)],
            bound: frac(8, 1),
        },
    ];
    let problem = sut::Problem::new(&objective, &constraints);

    struct LastSnapshot {
        last: Option<sut::Problem>,
    }

    impl ProblemObserver for LastSnapshot {
        fn observe(&mut self, problem: sut::Problem) {
            self.last = Some(problem);
        }
    }

    let mut sink = LastSnapshot { last: None };
    let _ = sut::solve(problem, &mut sink);
    let last = sink.last.unwrap();
    assert!(sut::is_optimal(&last));
    for c in &last.objective_equation.coefficients {
        assert!(le((0, 1), pair(c)));
    }
}
