use simplex::rational::{rat_le, rat_lt, Rat};
use simplex::render::{rat_text, variable_name};

fn frac(n: i64, d: i64) -> Rat {
    Rat::new(n, d)
}

#[test]
fn comparison_cross_multiplies_exactly() {
    assert!(rat_le(&frac(1, 3), &frac(1, 2)));
    assert!(rat_lt(&frac(1, 3), &frac(1, 2)));
    assert!(!rat_lt(&frac(1, 2), &frac(1, 2)));
    assert!(rat_le(&frac(2, 4), &frac(1, 2)));
    assert!(rat_le(&frac(-1, 2), &frac(0, 1)));
    assert!(!rat_le(&frac(1, 2), &frac(-3, 1)));
}

#[test]
fn zero_test_ignores_the_denominator() {
    assert!(frac(0, 7).is_zero());
    assert!(!frac(1, 7).is_zero());
    assert!(!frac(-1, 7).is_zero());
}

#[test]
fn negation_flips_the_numerator() {
    assert_eq!(frac(-3, 4), frac(3, 4).neg());
    assert_eq!(frac(5, 1), frac(-5, 1).neg());
}

#[test]
fn rational_values_render_in_lowest_given_terms() {
    assert_eq!(b"3".to_vec(), rat_text(&frac(3, 1)));
    assert_eq!(b"-7".to_vec(), rat_text(&frac(-7, 1)));
    assert_eq!(b"1/2".to_vec(), rat_text(&frac(1, 2)));
    assert_eq!(b"-12/5".to_vec(), rat_text(&frac(-12, 5)));
    assert_eq!(b"0".to_vec(), rat_text(&frac(0, 1)));
}

#[test]
fn variable_names_carry_the_index() {
    assert_eq!(b"x0".to_vec(), variable_name(0));
    assert_eq!(b"x12".to_vec(), variable_name(12));
    assert_eq!(b"x105".to_vec(), variable_name(105));
}
