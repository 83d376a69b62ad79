use newton_fractal::polynomial::Polynomial;

#[test]
fn derivate_constant() {
    // y = 1
    // y = 1*x^0
    let pol = Polynomial::new(vec![1]);
    assert_eq!(true, pol.derivative().coeff().is_empty());
}

#[test]
fn derivate_linear() {
    // y = x
    // y = 0*x^0 + 1*x^1
    let pol = Polynomial::new(vec![0, 1]);
    assert_eq!(vec![1], *pol.derivative().coeff());
}

#[test]
fn derivate_pol2() {
    // y = x ^ 2
    // y = 0*x^0 + 0*x^1 + 1*x^2
    let pol = Polynomial::new(vec![0, 0, 1]);
    assert_eq!(vec![0, 2], *pol.derivative().coeff());
}

#[test]
fn derivate_pol5() {
    let pol = Polynomial::new(vec![1, 1, 2, 3, 5, 8]);
    // y = 1 + x + 2x^2 + 3x^3 + 5x^4 + 8x^5
    // y' = 1 + 4x + 9x^2 + 20x^4 + 40x^5
    assert_eq!(vec![1, 4, 9, 20, 40], *pol.derivative().coeff());
}

#[test]
fn display_constant() {
    // y = 1
    let pol = Polynomial::new(vec![1]);
    assert_eq!("1", pol.to_string());
}

#[test]
fn display_linear() {
    // y = x
    let pol = Polynomial::new(vec![0, 1]);
    assert_eq!("x", pol.to_string());
}

#[test]
fn display_pol2() {
    // y = x ^ 2
    let pol = Polynomial::new(vec![0, 0, 1]);
    assert_eq!("x^2", pol.to_string());
}

#[test]
fn display_pol5() {
    let pol = Polynomial::new(vec![1, 1, 2, 3, 5, 8]);
    // y = 1 + x + 2x^2 + 3x^3 + 5x^4 + 8x^5
    assert_eq!("1 + x + 2x^2 + 3x^3 + 5x^4 + 8x^5", pol.to_string());
}

#[test]
fn derivative_of_empty_is_empty() {
    let pol = Polynomial::new(vec![]);
    assert!(pol.derivative().coeff().is_empty());
}

#[test]
fn derivative_of_cubic_minus_one() {
    // x^3 - 1 -> 3x^2
    let pol = Polynomial::new(vec![-1, 0, 0, 1]);
    assert_eq!(vec![0, 0, 3], *pol.derivative().coeff());
}

#[test]
fn checked_derivative_reports_overflow() {
    let pol = Polynomial::new(vec![0, 0, i32::MAX]);
    assert!(pol.checked_derivative().is_none());
    let pol = Polynomial::new(vec![0, 0, 1_073_741_823]);
    let d = pol.checked_derivative().unwrap();
    assert_eq!(vec![0, 2_147_483_646], *d.coeff());
    let pol = Polynomial::new(vec![0, i32::MIN]);
    assert_eq!(vec![i32::MIN], *pol.checked_derivative().unwrap().coeff());
}

#[test]
fn display_skips_zero_and_negative_terms() {
    let pol = Polynomial::new(vec![-1, 0, 0, 1]);
    assert_eq!("x^3", pol.to_string());
    let pol = Polynomial::new(vec![0, 0, 0]);
    assert_eq!("", pol.to_string());
    let pol = Polynomial::new(vec![]);
    assert_eq!("", pol.to_string());
}

#[test]
fn display_large_coefficients_and_degrees() {
    let mut coeff = vec![0; 12];
    coeff[0] = 2147483647;
    coeff[11] = 10;
    let pol = Polynomial::new(coeff);
    assert_eq!("2147483647 + 10x^11", pol.to_string());
}

#[test]
fn show_part_forms() {
    assert_eq!("1", Polynomial::show_part(0, 1));
    assert_eq!("-7", Polynomial::show_part(0, -7));
    assert_eq!("x", Polynomial::show_part(1, 1));
    assert_eq!("-3x", Polynomial::show_part(1, -3));
    assert_eq!("x^2", Polynomial::show_part(2, 1));
    assert_eq!("12x^105", Polynomial::show_part(105, 12));
    assert_eq!("-2147483648x^3", Polynomial::show_part(3, i32::MIN));
    assert_eq!("0x^4", Polynomial::show_part(4, 0));
}
