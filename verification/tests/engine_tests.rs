use simplex::rational::Rat;
use simplex::tabular as sut;
use simplex::tabular::Value;

fn frac(n: i64, d: i64) -> Value {
    Rat::new(n, d)
}

#[test]
fn initial_point_finds_initial_point_with_no_constraints() {
    let coeffs = Vec::<sut::Value>::new();
    let ub_constraints = Vec::<sut::UpperBoundConstraint>::new();
    let point = sut::initial_point(&coeffs, &ub_constraints);
    let expected_point = Vec::<sut::Value>::new();
    assert_eq!(expected_point, point);
}

#[test]
fn initial_point_finds_initial_point_with_one_constraint_one_variable() {
    let coeffs = vec![frac(1, 1)];
    let ub_constraints = vec![sut::UpperBoundConstraint {
        coefficients: vec![frac(1, 1)],
        bound: frac(5, 1),
    }];
    let point = sut::initial_point(&coeffs, &ub_constraints);
    let expected_point = vec![frac(0, 1), frac(5, 1)];
    assert_eq!(expected_point, point);
}

#[test]
fn initial_point_finds_initial_point_with_one_constraint_two_variables() {
    let coeffs = vec![frac(1, 1), frac(1, 1)];
    let ub_constraints = vec![sut::UpperBoundConstraint {
        coefficients: vec![frac(1, 1), frac(2, 1)],
        bound: frac(6, 1),
    }];
    let point = sut::initial_point(&coeffs, &ub_constraints);
    let expected_point = vec![frac(0, 1), frac(0, 1), frac(6, 1)];
    assert_eq!(expected_point, point);
}

#[test]
fn initial_point_finds_initial_point_with_two_constraints_two_variables() {
    let coeffs = vec![frac(1, 1), frac(1, 1)];
    let ub_constraints = vec![
        sut::UpperBoundConstraint {
            coefficients: vec![frac(1, 1), frac(2, 1)],
            bound: frac(6, 1),
        },
        sut::UpperBoundConstraint {
            coefficients: vec![frac(3, 1), frac(4, 1)],
            bound: frac(7, 1),
        },
    ];
    let point = sut::initial_point(&coeffs, &ub_constraints);
    let expected_point = vec![frac(0, 1), frac(0, 1), frac(6, 1), frac(7, 1)];
    assert_eq!(expected_point, point);
}

fn rowless_problem(coefficients: Vec<Value>) -> sut::Problem {
    sut::Problem {
        objective_equation: sut::Equation {
            coefficients,
            constraint: frac(0, 1),
        },
        rows: vec![],
        point: vec![],
    }
}

#[test]
fn is_optimal_empty_objective_is_optimal() {
    let problem = rowless_problem(vec![]);
    assert!(sut::is_optimal(&problem));
}

#[test]
fn is_optimal_positive_objective_is_optimal() {
    let problem = rowless_problem(vec![frac(1, 1)]);
    assert!(sut::is_optimal(&problem));
}

#[test]
fn is_optimal_zero_objective_is_optimal() {
    let problem = rowless_problem(vec![frac(0, 1)]);
    assert!(sut::is_optimal(&problem));
}

#[test]
fn is_optimal_positive_and_zero_objective_is_optimal() {
    let problem = rowless_problem(vec![frac(1, 1), frac(0, 1)]);
    assert!(sut::is_optimal(&problem));
}

#[test]
fn is_optimal_negative_objective_is_not_optimal() {
    let problem = rowless_problem(vec![frac(-1, 1)]);
    assert!(!sut::is_optimal(&problem));
}

#[test]
fn is_optimal_one_negative_in_objective_is_not_optimal() {
    let problem = rowless_problem(vec![frac(-1, 1), frac(0, 1)]);
    assert!(!sut::is_optimal(&problem));
}

#[test]
fn pivot_variable_empty_objective_has_no_pivot() {
    let problem = rowless_problem(vec![]);
    assert_eq!(None, sut::pivot_variable(&problem));
}

#[test]
fn pivot_variable_single_var_is_pivot() {
    let problem = rowless_problem(vec![frac(1, 1)]);
    assert_eq!(Some(0), sut::pivot_variable(&problem));
}

#[test]
fn pivot_variable_smallest_var_is_pivot() {
    let problem = rowless_problem(vec![frac(1, 1), frac(-2, 1), frac(0, 1)]);
    assert_eq!(Some(1), sut::pivot_variable(&problem));
}

fn one_row_problem(coefficients: Vec<Value>, constraint: Value, ratio: Value) -> sut::Problem {
    sut::Problem {
        objective_equation: sut::Equation {
            coefficients: vec![],
            constraint: frac(0, 1),
        },
        rows: vec![sut::SimplexRow {
            basic_variable: 0,
            equation: sut::Equation { coefficients, constraint },
            ratio,
        }],
        point: vec![],
    }
}

#[test]
fn set_ratios_recalculates_ratio_for_row() {
    let mut problem = one_row_problem(vec![frac(2, 1)], frac(6, 1), frac(0, 1));
    sut::set_ratios(&mut problem, 0);
    assert_eq!(frac(3, 1), problem.rows[0].ratio);
}

#[test]
fn set_ratios_recalculates_ratio_for_rows() {
    let mut problem = sut::Problem {
        objective_equation: sut::Equation {
            coefficients: vec![],
            constraint: frac(0, 1),
        },
        rows: vec![
            sut::SimplexRow {
                basic_variable: 0,
                equation: sut::Equation {
                    coefficients: vec![frac(2, 1)],
                    constraint: frac(6, 1),
                },
                ratio: frac(0, 1),
            },
            sut::SimplexRow {
                basic_variable: 0,
                equation: sut::Equation {
                    coefficients: vec![frac(2, 1)],
                    constraint: frac(8, 1),
                },
                ratio: frac(0, 1),
            },
        ],
        point: vec![],
    };
    sut::set_ratios(&mut problem, 0);
    assert_eq!(frac(3, 1), problem.rows[0].ratio);
    assert_eq!(frac(4, 1), problem.rows[1].ratio);
}

#[test]
fn set_ratios_recalculates_ratio_for_specified_var() {
    let mut problem = one_row_problem(vec![frac(2, 1), frac(3, 1)], frac(6, 1), frac(0, 1));
    sut::set_ratios(&mut problem, 1);
    assert_eq!(frac(2, 1), problem.rows[0].ratio);
}

#[test]
fn pivot_row_idx_returns_none_for_no_rows() {
    let problem = rowless_problem(vec![]);
    let result = sut::pivot_row_idx(&problem);
    assert_eq!(None, result);
}

#[test]
fn pivot_row_idx_returns_index_for_single_positive_ratio() {
    let problem = one_row_problem(vec![frac(1, 1)], frac(5, 1), frac(5, 1));
    let result = sut::pivot_row_idx(&problem);
    assert_eq!(Some(0), result);
}

#[test]
fn pivot_row_idx_returns_none_for_zero_ratio() {
    let problem = one_row_problem(vec![frac(1, 1)], frac(0, 1), frac(0, 1));
    let result = sut::pivot_row_idx(&problem);
    assert_eq!(None, result);
}

#[test]
fn pivot_row_idx_returns_none_for_negative_ratio() {
    let problem = one_row_problem(vec![frac(1, 1)], frac(-5, 1), frac(-5, 1));
    let result = sut::pivot_row_idx(&problem);
    assert_eq!(None, result);
}

fn three_ratio_problem(r0: Value, r1: Value, r2: Value) -> sut::Problem {
    let row = |constraint: Value, ratio: Value, basic_variable: usize| sut::SimplexRow {
        basic_variable,
        equation: sut::Equation {
            coefficients: vec![frac(1, 1)],
            constraint,
        },
        ratio,
    };
    sut::Problem {
        objective_equation: sut::Equation {
            coefficients: vec![],
            constraint: frac(0, 1),
        },
        rows: vec![row(r0, r0, 0), row(r1, r1, 1), row(r2, r2, 2)],
        point: vec![],
    }
}

#[test]
fn pivot_row_idx_returns_index_of_minimum_positive_ratio() {
    let problem = three_ratio_problem(frac(10, 1), frac(3, 1), frac(7, 1));
    let result = sut::pivot_row_idx(&problem);
    assert_eq!(Some(1), result);
}

#[test]
fn pivot_row_idx_ignores_non_positive_ratios() {
    let problem = three_ratio_problem(frac(-2, 1), frac(0, 1), frac(5, 1));
    let result = sut::pivot_row_idx(&problem);
    assert_eq!(Some(2), result);
}

#[test]
fn pivot_row_idx_returns_none_when_all_ratios_non_positive() {
    let problem = three_ratio_problem(frac(-2, 1), frac(0, 1), frac(-5, 1));
    let result = sut::pivot_row_idx(&problem);
    assert_eq!(None, result);
}

#[test]
fn normalize_equation_sets_single_coefficient_to_one() {
    let mut problem = one_row_problem(vec![frac(5, 1)], frac(10, 1), frac(0, 1));
    sut::normalize_equation(&mut problem, 0, 0);
    assert_eq!(vec![frac(1, 1)], problem.rows[0].equation.coefficients);
}

#[test]
fn normalize_equation_divides_other_coefficients_by_pivot() {
    let mut problem = one_row_problem(
        vec![frac(2, 1), frac(4, 1), frac(6, 1)],
        frac(10, 1),
        frac(0, 1),
    );
    sut::normalize_equation(&mut problem, 0, 0);
    assert_eq!(
        vec![frac(1, 1), frac(2, 1), frac(3, 1)],
        problem.rows[0].equation.coefficients
    );
}

#[test]
fn normalize_equation_normalizes_on_non_first_variable() {
    let mut problem = one_row_problem(
        vec![frac(3, 1), frac(6, 1), frac(9, 1)],
        frac(12, 1),
        frac(0, 1),
    );
    sut::normalize_equation(&mut problem, 0, 1);
    assert_eq!(
        vec![frac(1, 2), frac(1, 1), frac(3, 2)],
        problem.rows[0].equation.coefficients
    );
}

#[test]
fn normalize_equation_leaves_other_coefficients_unchanged_when_pivot_is_one() {
    let mut problem = one_row_problem(
        vec![frac(1, 1), frac(3, 1), frac(5, 1)],
        frac(8, 1),
        frac(0, 1),
    );
    sut::normalize_equation(&mut problem, 0, 0);
    assert_eq!(
        vec![frac(1, 1), frac(3, 1), frac(5, 1)],
        problem.rows[0].equation.coefficients
    );
}

#[test]
fn normalize_equation_normalizes_correct_row_when_multiple_rows_exist() {
    let mut problem = sut::Problem {
        objective_equation: sut::Equation {
            coefficients: vec![],
            constraint: frac(0, 1),
        },
        rows: vec![
            sut::SimplexRow {
                basic_variable: 0,
                equation: sut::Equation {
                    coefficients: vec![frac(2, 1), frac(4, 1)],
                    constraint: frac(6, 1),
                },
                ratio: frac(0, 1),
            },
            sut::SimplexRow {
                basic_variable: 1,
                equation: sut::Equation {
                    coefficients: vec![frac(3, 1), frac(9, 1)],
                    constraint: frac(12, 1),
                },
                ratio: frac(0, 1),
            },
        ],
        point: vec![],
    };
    sut::normalize_equation(&mut problem, 1, 1);
    assert_eq!(
        vec![frac(2, 1), frac(4, 1)],
        problem.rows[0].equation.coefficients
    );
    assert_eq!(
        vec![frac(1, 3), frac(1, 1)],
        problem.rows[1].equation.coefficients
    );
}

#[test]
fn reduce_equations_reduces_objective_equation() {
    let mut problem = sut::Problem {
        objective_equation: sut::Equation {
            coefficients: vec![frac(3, 1), frac(2, 1)],
            constraint: frac(0, 1),
        },
        rows: vec![sut::SimplexRow {
            basic_variable: 0,
            equation: sut::Equation {
                coefficients: vec![frac(1, 1), frac(1, 2)],
                constraint: frac(4, 1),
            },
            ratio: frac(0, 1),
        }],
        point: vec![],
    };
    sut::reduce_equations(&mut problem, 0, 0);
    assert_eq!(
        vec![frac(0, 1), frac(1, 2)],
        problem.objective_equation.coefficients
    );
    assert_eq!(frac(-12, 1), problem.objective_equation.constraint);
}

#[test]
fn reduce_equations_leaves_pivot_row_unchanged() {
    let mut problem = sut::Problem {
        objective_equation: sut::Equation {
            coefficients: vec![frac(1, 1), frac(1, 1)],
            constraint: frac(0, 1),
        },
        rows: vec![sut::SimplexRow {
            basic_variable: 0,
            equation: sut::Equation {
                coefficients: vec![frac(1, 1), frac(2, 1)],
                constraint: frac(6, 1),
            },
            ratio: frac(0, 1),
        }],
        point: vec![],
    };
    sut::reduce_equations(&mut problem, 0, 0);
    assert_eq!(
        vec![frac(1, 1), frac(2, 1)],
        problem.rows[0].equation.coefficients
    );
    assert_eq!(frac(6, 1), problem.rows[0].equation.constraint);
}

#[test]
fn reduce_equations_reduces_non_pivot_row() {
    let mut problem = sut::Problem {
        objective_equation: sut::Equation {
            coefficients: vec![frac(0, 1), frac(0, 1)],
            constraint: frac(0, 1),
        },
        rows: vec![
            sut::SimplexRow {
                basic_variable: 0,
                equation: sut::Equation {
                    coefficients: vec![frac(1, 1), frac(2, 1)],
                    constraint: frac(10, 1),
                },
                ratio: frac(0, 1),
            },
            sut::SimplexRow {
                basic_variable: 1,
                equation: sut::Equation {
                    coefficients: vec![frac(3, 1), frac(4, 1)],
                    constraint: frac(20, 1),
                },
                ratio: frac(0, 1),
            },
        ],
        point: vec![],
    };
    sut::reduce_equations(&mut problem, 0, 0);
    assert_eq!(
        vec![frac(0, 1), frac(-2, 1)],
        problem.rows[1].equation.coefficients
    );
    assert_eq!(frac(-10, 1), problem.rows[1].equation.constraint);
}

#[test]
fn reduce_equations_reduces_multiple_non_pivot_rows() {
    let mut problem = sut::Problem {
        objective_equation: sut::Equation {
            coefficients: vec![frac(0, 1), frac(0, 1)],
            constraint: frac(0, 1),
        },
        rows: vec![
            sut::SimplexRow {
                basic_variable: 0,
                equation: sut::Equation {
                    coefficients: vec![frac(2, 1), frac(1, 1)],
                    constraint: frac(5, 1),
                },
                ratio: frac(0, 1),
            },
            sut::SimplexRow {
                basic_variable: 1,
                equation: sut::Equation {
                    coefficients: vec![frac(1, 1), frac(3, 1)],
                    constraint: frac(8, 1),
                },
                ratio: frac(0, 1),
            },
            sut::SimplexRow {
                basic_variable: 2,
                equation: sut::Equation {
                    coefficients: vec![frac(4, 1), frac(2, 1)],
                    constraint: frac(12, 1),
                },
                ratio: frac(0, 1),
            },
        ],
        point: vec![],
    };
    sut::reduce_equations(&mut problem, 1, 0);
    assert_eq!(
        vec![frac(0, 1), frac(-5, 1)],
        problem.rows[0].equation.coefficients
    );
    assert_eq!(frac(-11, 1), problem.rows[0].equation.constraint);
    assert_eq!(
        vec![frac(1, 1), frac(3, 1)],
        problem.rows[1].equation.coefficients
    );
    assert_eq!(frac(8, 1), problem.rows[1].equation.constraint);
    assert_eq!(
        vec![frac(0, 1), frac(-10, 1)],
        problem.rows[2].equation.coefficients
    );
    assert_eq!(frac(-20, 1), problem.rows[2].equation.constraint);
}

#[test]
fn reduce_equations_reduces_on_non_first_variable() {
    let mut problem = sut::Problem {
        objective_equation: sut::Equation {
            coefficients: vec![frac(2, 1), frac(4, 1)],
            constraint: frac(0, 1),
        },
        rows: vec![sut::SimplexRow {
            basic_variable: 0,
            equation: sut::Equation {
                coefficients: vec![frac(3, 1), frac(1, 1)],
                constraint: frac(6, 1),
            },
            ratio: frac(0, 1),
        }],
        point: vec![],
    };
    sut::reduce_equations(&mut problem, 0, 1);
    assert_eq!(
        vec![frac(-10, 1), frac(0, 1)],
        problem.objective_equation.coefficients
    );
    assert_eq!(frac(-24, 1), problem.objective_equation.constraint);
}

#[test]
fn shape_check_accepts_a_built_tableau() {
    let coeffs = vec![frac(1, 1), frac(1, 1)];
    let ub_constraints = vec![sut::UpperBoundConstraint {
        coefficients: vec![frac(1, 1), frac(2, 1)],
        bound: frac(6, 1),
    }];
    let problem = sut::Problem::new(&coeffs, &ub_constraints);
    assert!(sut::shape_check(&problem));
}

#[test]
fn shape_check_rejects_a_mismatched_point() {
    let problem = sut::Problem {
        objective_equation: sut::Equation {
            coefficients: vec![frac(1, 1)],
            constraint: frac(0, 1),
        },
        rows: vec![],
        point: vec![],
    };
    assert!(!sut::shape_check(&problem));
}
