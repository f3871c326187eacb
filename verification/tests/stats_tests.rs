use knn_classifier::errors::Error;
use knn_classifier::stats::{mean, variance, standard_deviation, zscore};

#[test]
fn mean_of_identical_values_is_that_value() {
    let xs: Vec<i64> = vec![7, 7, 7, 7];
    assert_eq!(mean(&xs), Ok(7));
}

#[test]
fn variance_of_identical_values_is_zero() {
    let xs: Vec<i64> = vec![7, 7, 7];
    assert_eq!(variance(&xs, 7), Ok(0));
}

#[test]
fn standard_deviation_of_zero_variance_is_zero() {
    assert_eq!(standard_deviation(0), 0);
}

#[test]
fn mean_truncates_toward_zero() {
    assert_eq!(mean(&vec![1, 2, 3, 4]), Ok(2));
    assert_eq!(mean(&vec![-3, -4]), Ok(-3));
    assert_eq!(mean(&vec![-1, -2]), Ok(-1));
}

#[test]
fn mean_of_empty_input_fails() {
    let xs: Vec<i64> = Vec::new();
    assert_eq!(mean(&xs), Err(Error::EmptyInput));
}

#[test]
fn variance_of_empty_input_fails() {
    let xs: Vec<i64> = Vec::new();
    assert_eq!(variance(&xs, 0), Err(Error::EmptyInput));
}

#[test]
fn variance_exact_value() {
    let xs: Vec<i64> = vec![2, 4, 4, 4, 5, 5, 7, 9];
    assert_eq!(mean(&xs), Ok(5));
    assert_eq!(variance(&xs, 5), Ok(4));
    assert_eq!(standard_deviation(4), 2);
}

#[test]
fn standard_deviation_rounds_down() {
    assert_eq!(standard_deviation(1), 1);
    assert_eq!(standard_deviation(3), 1);
    assert_eq!(standard_deviation(8), 2);
    assert_eq!(standard_deviation(9), 3);
    assert_eq!(standard_deviation(15), 3);
    assert_eq!(standard_deviation(16), 4);
    assert_eq!(standard_deviation(u64::MAX), 4294967295);
}

#[test]
fn zscore_exact_values() {
    assert_eq!(zscore(9, 5, 2, 1), Ok(2));
    assert_eq!(zscore(7, 5, 2, 1000), Ok(1000));
    assert_eq!(zscore(1, 0, 3, 10), Ok(3));
    assert_eq!(zscore(-1, 0, 3, 10), Ok(-3));
}

#[test]
fn zscore_with_zero_deviation_fails() {
    assert_eq!(zscore(3, 1, 0, 1000), Err(Error::DivideByZero));
}

#[test]
fn zscore_round_trip_stays_within_one_deviation() {
    let sc: i64 = 1000;
    for &x in &[-937i64, -1, 0, 1, 13, 500, 994] {
        for &m in &[-20i64, 0, 7] {
            for &sd in &[1i64, 2, 3, 29] {
                let z = zscore(x, m, sd as u64, sc as u32).unwrap();
                let err = x * sc - (m * sc + z * sd);
                assert!(err.abs() < sd);
            }
        }
    }
}
