use crowdmatch::math::{integer_sqrt, powi};
use crowdmatch::voting::calculate_quadratic_funding_for_association;

#[test]
fn integer_sqrt_small_values() {
    assert_eq!(integer_sqrt(0), 0);
    assert_eq!(integer_sqrt(1), 1);
    assert_eq!(integer_sqrt(2), 1);
    assert_eq!(integer_sqrt(3), 1);
    assert_eq!(integer_sqrt(4), 2);
    assert_eq!(integer_sqrt(9), 3);
    assert_eq!(integer_sqrt(10), 3);
    assert_eq!(integer_sqrt(99), 9);
    assert_eq!(integer_sqrt(100), 10);
}

#[test]
fn integer_sqrt_large_values() {
    assert_eq!(integer_sqrt(i64::MAX as i128), 3037000499);
    assert_eq!(integer_sqrt(i128::MAX), 13043817825332782212);
    assert_eq!(integer_sqrt(13043817825332782212), 3611622602);
}

#[test]
fn powi_exact_values() {
    assert_eq!(powi(2, 10), 1024);
    assert_eq!(powi(5, 0), 1);
    assert_eq!(powi(7, 1), 7);
    assert_eq!(powi(0, 5), 0);
    assert_eq!(powi(10, 6), 1_000_000);
    assert_eq!(powi(3037000499, 2), 3037000499i128 * 3037000499i128);
}

#[test]
fn powi_negative_base_and_exponent() {
    assert_eq!(powi(-3, 3), -27);
    assert_eq!(powi(-3, 2), 9);
    // the squaring loop never runs for a negative exponent
    assert_eq!(powi(3, -2), 1);
}

#[test]
fn association_funding_uses_real_square_roots() {
    // root sum of [4] is 2, weight 4; with total weight 4 the quotient is
    // exactly 1, so the association receives the whole pool.  If the
    // square root were skipped the weight would be 16 and the result 400.
    assert_eq!(calculate_quadratic_funding_for_association(&vec![4], 4, 100), 100);
}

#[test]
fn association_funding_truncates_to_zero() {
    // weights 25 and 1 against a total of 26 truncate to zero before the
    // pool of 260 is applied
    assert_eq!(calculate_quadratic_funding_for_association(&vec![4, 9], 26, 260), 0);
    assert_eq!(calculate_quadratic_funding_for_association(&vec![1], 26, 260), 0);
}
