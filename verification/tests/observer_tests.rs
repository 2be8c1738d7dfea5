use simplex::rational::Rat;
use simplex::render::WriteObserver;
use simplex::tabular as sut;
use simplex::tabular::{ProblemObserver, Value};

fn frac(n: i64, d: i64) -> Value {
    Rat::new(n, d)
}

struct MockObserver {
    observations: Vec<sut::Problem>,
}

impl MockObserver {
    fn new() -> Self {
        Self { observations: Vec::new() }
    }
}

impl sut::ProblemObserver for MockObserver {
    fn observe(&mut self, problem: sut::Problem) {
        self.observations.push(problem);
    }
}

#[test]
fn solve_observes_empty_problem() {
    let mut observer = MockObserver::new();
    let coeffs = vec![];
    let constraints = vec![];
    let problem = sut::Problem::new(&coeffs, &constraints);
    let expected_observations = vec![problem.clone()];
    let _solution = sut::solve(problem, &mut observer);
    assert_eq!(expected_observations, observer.observations);
}

#[test]
fn solve_observes_steps_of_problem() {
    let mut observer = MockObserver::new();
    let objective_coeffs = vec![frac(1, 1)];
    let functional_constraint = sut::UpperBoundConstraint {
        coefficients: vec![frac(3, 1)],
        bound: frac(6, 1),
    };
    let constraints = vec![functional_constraint];
    let problem = sut::Problem::new(&objective_coeffs, &constraints);
    let next_problem = sut::Problem {
        objective_equation: sut::Equation {
            coefficients: vec![frac(0, 1), frac(1, 3)],
            constraint: frac(2, 1),
        },
        rows: vec![sut::SimplexRow {
            basic_variable: 0,
            equation: sut::Equation {
                coefficients: vec![frac(1, 1), frac(1, 3)],
                constraint: frac(2, 1),
            },
            ratio: frac(2, 1),
        }],
        point: vec![frac(2, 1), frac(0, 1)],
    };
    let expected_observations = vec![problem.clone(), next_problem];
    let _solution = sut::solve(problem, &mut observer);
    assert_eq!(expected_observations, observer.observations);
}

fn make_one_variable_problem() -> sut::Problem {
    sut::Problem {
        objective_equation: sut::Equation {
            coefficients: vec![frac(-5, 1)],
            constraint: frac(0, 1),
        },
        rows: vec![],
        point: vec![frac(0, 1)],
    }
}

#[test]
fn formats_objective_row_only() {
    let mut observer = WriteObserver::new(Vec::new());
    observer.observe(make_one_variable_problem());
    let result = String::from_utf8(observer.output).unwrap();
    let expected = "\
| BV | x0 | RHS | Ratio |
|----|----|-----|-------|
| Z  | -5 |   0 |       |
";
    assert_eq!(expected, result);
}

#[test]
fn formats_two_variable_two_constraint_problem() {
    let problem = sut::Problem {
        objective_equation: sut::Equation {
            coefficients: vec![frac(-500, 1), frac(-4, 1), frac(0, 1), frac(0, 1)],
            constraint: frac(0, 1),
        },
        rows: vec![
            sut::SimplexRow {
                basic_variable: 2,
                equation: sut::Equation {
                    coefficients: vec![frac(6, 1), frac(4, 1), frac(1, 1), frac(0, 1)],
                    constraint: frac(24, 1),
                },
                ratio: frac(4, 1),
            },
            sut::SimplexRow {
                basic_variable: 3,
                equation: sut::Equation {
                    coefficients: vec![frac(1, 1), frac(2, 1), frac(0, 1), frac(1, 1)],
                    constraint: frac(6, 1),
                },
                ratio: frac(6, 1),
            },
        ],
        point: vec![frac(0, 1), frac(0, 1), frac(0, 1), frac(0, 1)],
    };
    let mut observer = WriteObserver::new(Vec::new());
    observer.observe(problem);
    let result = String::from_utf8(observer.output).unwrap();
    let expected = "\
| BV |   x0 | x1 | x2 | x3 | RHS | Ratio |
|----|------|----|----|----|-----|-------|
| Z  | -500 | -4 |  0 |  0 |   0 |       |
| x2 |    6 |  4 |  1 |  0 |  24 |     4 |
| x3 |    1 |  2 |  0 |  1 |   6 |     6 |
";
    assert_eq!(expected, result);
}

#[test]
fn formats_with_one_constraint_row() {
    let problem = sut::Problem {
        objective_equation: sut::Equation {
            coefficients: vec![frac(-5, 1)],
            constraint: frac(0, 1),
        },
        rows: vec![sut::SimplexRow {
            basic_variable: 1,
            equation: sut::Equation {
                coefficients: vec![frac(2, 1)],
                constraint: frac(10, 1),
            },
            ratio: frac(5, 1),
        }],
        point: vec![frac(0, 1)],
    };
    let mut observer = WriteObserver::new(Vec::new());
    observer.observe(problem);
    let result = String::from_utf8(observer.output).unwrap();
    let expected = "\
| BV | x0 | RHS | Ratio |
|----|----|-----|-------|
| Z  | -5 |   0 |       |
| x1 |  2 |  10 |     5 |
";
    assert_eq!(expected, result);
}

#[test]
fn formats_fractional_values_with_a_slash() {
    let problem = sut::Problem {
        objective_equation: sut::Equation {
            coefficients: vec![frac(-1, 2)],
            constraint: frac(0, 1),
        },
        rows: vec![],
        point: vec![frac(0, 1)],
    };
    let mut observer = WriteObserver::new(Vec::new());
    observer.observe(problem);
    let result = String::from_utf8(observer.output).unwrap();
    let expected = "\
| BV |   x0 | RHS | Ratio |
|----|------|-----|-------|
| Z  | -1/2 |   0 |       |
";
    assert_eq!(expected, result);
}
