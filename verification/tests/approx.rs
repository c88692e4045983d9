use crucible::approx::assert_approx_eq;

#[test]
fn test_assert_approx_eq_accepts_values_within_tolerance() {
    assert_eq!(assert_approx_eq(100_i128, 102_i128, 2_i128), Ok(()));
    // Floating-point amounts are compared the same way: the difference within
    // the tolerance.
    let (actual, expected, tolerance) = (10.0_f64, 10.01_f64, 0.02_f64);
    let diff = if actual >= expected { actual - expected } else { expected - actual };
    assert!(tolerance >= 0.0 && diff <= tolerance);
}

#[test]
fn test_assert_approx_eq_panics_when_outside_tolerance() {
    let err = assert_approx_eq(100_i128, 105_i128, 2_i128).unwrap_err();
    assert_eq!(
        err,
        "assert_approx_eq! failed: difference exceeds tolerance.\n\nactual     = 100\nexpected   = 105\ndifference = 5\ntolerance  = 2"
    );
}

#[test]
fn a_negative_tolerance_is_refused() {
    let err = assert_approx_eq(1, 1, -1).unwrap_err();
    assert_eq!(
        err,
        "assert_approx_eq! failed: tolerance must be non-negative.\n\nactual    = 1\nexpected  = 1\ntolerance = -1"
    );
}

#[test]
fn approximate_equality_is_symmetric() {
    assert_eq!(assert_approx_eq(-5, 5, 10), Ok(()));
    assert_eq!(assert_approx_eq(5, -5, 10), Ok(()));
    assert!(assert_approx_eq(5, -6, 10).is_err());
    assert!(assert_approx_eq(-6, 5, 10).is_err());
}
