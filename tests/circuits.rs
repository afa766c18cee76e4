use fhe_regression::error::RegressionError;
use fhe_regression::fixed::{FixedPoint, SCALE};
use fhe_regression::model::{fit_plaintext, predict_list_impl, size_divisor, to_vector, variance_inverse};
use fhe_regression::rational::Rational;
use fhe_regression::stats::{
    covariance_impl, fit_impl, mean_absolute_error_impl, mean_impl, predict_impl, variance_impl,
    VEC_SIZE,
};

fn whole(n: i64) -> Rational {
    Rational::from_integer(n)
}

fn frac(n: i128, d: i128) -> Rational {
    Rational::new(n, d).unwrap()
}

/// Whether `r` stands for `n / d`.
fn is_value(r: &Rational, n: i128, d: i128) -> bool {
    r.numerator() * d == n * r.denominator()
}

fn inputs_x() -> [Rational; VEC_SIZE] {
    [whole(1), whole(2), whole(3), whole(4), whole(5)]
}

fn inputs_y() -> [Rational; VEC_SIZE] {
    [frac(1, 2), whole(1), frac(5, 2), whole(3), frac(13, 4)]
}

#[test]
fn test_fhe_mean() {
    let actual = mean_impl(inputs_x(), size_divisor()).unwrap();
    assert!(is_value(&actual, 3, 1));
}

#[test]
fn test_fhe_variance() {
    let actual = variance_impl(inputs_x(), size_divisor()).unwrap();
    assert!(is_value(&actual, 2, 1));
}

#[test]
fn test_fhe_covariance() {
    let actual = covariance_impl(inputs_x(), inputs_y(), size_divisor()).unwrap();
    assert!(is_value(&actual, 3, 2));
}

#[test]
fn test_fhe_mean_absolute_error() {
    let actual = mean_absolute_error_impl(inputs_x(), inputs_y(), size_divisor()).unwrap();
    assert!(is_value(&actual, 19, 20));
}

#[test]
fn test_fhe_fit() {
    // The multiplier handed in is the variance itself, 2.
    let var_x = variance_impl(inputs_x(), size_divisor()).unwrap();
    let (intercept, coefficient) =
        fit_impl(inputs_x(), inputs_y(), size_divisor(), var_x).unwrap();
    assert!(is_value(&intercept, -139, 20));
    assert!(is_value(&coefficient, 3, 1));
}

#[test]
fn test_fhe_predict() {
    let var_x = variance_impl(inputs_x(), size_divisor()).unwrap();
    let (intercept, coefficient) =
        fit_impl(inputs_x(), inputs_y(), size_divisor(), var_x).unwrap();
    let actual = predict_impl(intercept, coefficient, whole(2)).unwrap();
    assert!(is_value(&actual, -19, 20));
}

#[test]
fn test_linear_regression() {
    let x_train = vec![whole(1), whole(2), whole(3), whole(4), whole(5)];
    let y_train = vec![whole(2), whole(4), whole(6), whole(8), whole(10)];
    let x_test = vec![whole(6), whole(7), whole(8), whole(9), whole(10)];
    let y_test: Vec<i128> = vec![12, 14, 16, 18, 20];

    let x = to_vector(&x_train).unwrap();
    let y = to_vector(&y_train).unwrap();
    let (intercept, coefficient) = fit_plaintext(x, y).unwrap();

    let y_pred = predict_impl(intercept, coefficient, x_test[0]).unwrap();
    assert!(is_value(&y_pred, y_test[0], 1));
}

#[test]
fn mean_with_equivalent_divisor_is_average() {
    // 2/10 stands for 1/5 as well.
    let actual = mean_impl(inputs_y(), frac(2, 10)).unwrap();
    assert!(is_value(&actual, 41, 20));
}

#[test]
fn fit_with_true_inverse_is_least_squares() {
    let inv = variance_inverse(inputs_x(), size_divisor()).unwrap();
    assert!(is_value(&inv, 1, 2));
    let (intercept, coefficient) =
        fit_impl(inputs_x(), inputs_y(), size_divisor(), inv).unwrap();
    assert!(is_value(&coefficient, 3, 4));
    assert!(is_value(&intercept, -1, 5));
    let (i2, c2) = fit_plaintext(inputs_x(), inputs_y()).unwrap();
    assert!(is_value(&i2, -1, 5));
    assert!(is_value(&c2, 3, 4));
    // The line passes through the point of means (3, 2.05).
    let at_mean = predict_impl(intercept, coefficient, whole(3)).unwrap();
    assert!(is_value(&at_mean, 41, 20));
}

#[test]
fn perfect_line_fits_exactly() {
    let x = [whole(1), whole(2), whole(3), whole(4), whole(5)];
    let y = [whole(2), whole(4), whole(6), whole(8), whole(10)];
    let (intercept, coefficient) = fit_plaintext(x, y).unwrap();
    assert!(is_value(&intercept, 0, 1));
    assert!(is_value(&coefficient, 2, 1));
    let p = predict_impl(intercept, coefficient, whole(6)).unwrap();
    assert!(is_value(&p, 12, 1));
}

#[test]
fn predict_list_keeps_order() {
    let xs = vec![whole(6), whole(7), whole(8), whole(9), whole(10)];
    let out = predict_list_impl(whole(0), whole(2), &xs).unwrap();
    assert_eq!(out.len(), 5);
    let expected: [i128; 5] = [12, 14, 16, 18, 20];
    for i in 0..5 {
        assert!(is_value(&out[i], expected[i], 1));
    }
    let empty = predict_list_impl(whole(0), whole(2), &Vec::new()).unwrap();
    assert!(empty.is_empty());
}

#[test]
fn predict_is_exact_affine() {
    let p = predict_impl(frac(1, 3), frac(-2, 7), frac(7, 4)).unwrap();
    // 1/3 - 1/2 = -1/6
    assert!(is_value(&p, -1, 6));
}

#[test]
fn wrong_vector_length_is_shape_error() {
    let short = vec![whole(1), whole(2), whole(3), whole(4)];
    let long = vec![whole(1), whole(2), whole(3), whole(4), whole(5), whole(6)];
    assert_eq!(to_vector(&short).unwrap_err(), RegressionError::Shape);
    assert_eq!(to_vector(&long).unwrap_err(), RegressionError::Shape);
    assert_eq!(to_vector(&Vec::<Rational>::new()).unwrap_err(), RegressionError::Shape);
    let ok = to_vector(&vec![whole(1), whole(2), whole(3), whole(4), whole(5)]).unwrap();
    assert!(is_value(&ok[4], 5, 1));
}

#[test]
fn zero_denominator_is_encoding_error() {
    assert_eq!(Rational::new(1, 0).unwrap_err(), RegressionError::Encoding);
    assert_eq!(Rational::new(i128::MIN, -1).unwrap_err(), RegressionError::Encoding);
    let r = Rational::new(3, -4).unwrap();
    assert_eq!(r.numerator(), -3);
    assert_eq!(r.denominator(), 4);
}

#[test]
fn overflow_is_encoding_error() {
    let big = Rational::new(i128::MAX / 2, 1).unwrap();
    let x = [big, big, big, whole(0), whole(0)];
    assert_eq!(mean_impl(x, size_divisor()).unwrap_err(), RegressionError::Encoding);
    assert_eq!(
        predict_impl(whole(1), big, whole(3)).unwrap_err(),
        RegressionError::Encoding
    );
}

#[test]
fn constant_input_has_no_variance_inverse() {
    let x = [whole(4), whole(4), whole(4), whole(4), whole(4)];
    let v = variance_impl(x, size_divisor()).unwrap();
    assert!(is_value(&v, 0, 1));
    assert_eq!(variance_inverse(x, size_divisor()).unwrap_err(), RegressionError::Encoding);
    assert!(fit_plaintext(x, inputs_y()).is_err());
}

#[test]
fn division_moves_sign_to_numerator() {
    let q = frac(3, 4).div(&frac(-1, 2)).unwrap();
    assert!(q.denominator() > 0);
    assert!(is_value(&q, -3, 2));
    assert!(frac(1, 2).div(&whole(0)).is_none());
    assert_eq!(frac(1, 2).same_value_as(&frac(2, 4)), Some(true));
    assert_eq!(frac(1, 2).same_value_as(&frac(2, 3)), Some(false));
}

#[test]
fn fixed_point_round_trip() {
    for q in [whole(0), frac(-3, 4), frac(5, 2), whole(-7)] {
        let f = FixedPoint::encode(&q).unwrap();
        assert!(is_value(&f.decode(), q.numerator(), q.denominator()));
    }
    // 1/3 is not on the scale: it is rounded down.
    let third = FixedPoint::encode(&frac(1, 3)).unwrap();
    assert_eq!(third.raw(), 21845);
    let minus_third = FixedPoint::encode(&frac(-1, 3)).unwrap();
    assert_eq!(minus_third.raw(), -21846);
    // Near the limit of the scale.
    for raw in [i64::MAX, i64::MIN, 0, -1] {
        let f = FixedPoint::from_raw(raw);
        assert_eq!(FixedPoint::encode(&f.decode()).unwrap().raw(), raw);
    }
    let d = FixedPoint::from_raw(3).decode();
    assert_eq!(d.denominator(), SCALE);
}

#[test]
fn fixed_point_out_of_range_is_encoding_error() {
    let too_big = Rational::new(i128::from(i64::MAX), 1).unwrap();
    assert_eq!(FixedPoint::encode(&too_big).unwrap_err(), RegressionError::Encoding);
    let huge = Rational::new(i128::MAX, 1).unwrap();
    assert_eq!(FixedPoint::encode(&huge).unwrap_err(), RegressionError::Encoding);
}

#[test]
fn fixed_point_arithmetic() {
    let a = FixedPoint::encode(&frac(3, 2)).unwrap();
    let b = FixedPoint::encode(&frac(5, 2)).unwrap();
    assert_eq!(a.add(&b).unwrap().raw(), 4 * 65536);
    assert_eq!(a.sub(&b).unwrap().raw(), -65536);
    assert_eq!(a.mul(&b).unwrap().raw(), 245760);
    let minus_a = FixedPoint::encode(&frac(-3, 2)).unwrap();
    assert_eq!(minus_a.mul(&b).unwrap().raw(), -245760);
    // The product is rounded down to the scale.
    let tiny = FixedPoint::from_raw(1);
    assert_eq!(tiny.mul(&tiny).unwrap().raw(), 0);
    assert_eq!(FixedPoint::from_raw(-1).mul(&tiny).unwrap().raw(), -1);
    assert!(FixedPoint::from_raw(i64::MAX).add(&tiny).is_none());
    assert!(FixedPoint::from_raw(i64::MIN).sub(&tiny).is_none());
    assert!(FixedPoint::from_raw(i64::MAX).mul(&FixedPoint::from_raw(i64::MAX)).is_none());
}

#[test]
fn division_by_variance_matches_inverse() {
    let cov = covariance_impl(inputs_x(), inputs_y(), size_divisor()).unwrap();
    let var = variance_impl(inputs_x(), size_divisor()).unwrap();
    let by_division = cov.div(&var).unwrap();
    let inv = variance_inverse(inputs_x(), size_divisor()).unwrap();
    let by_inverse = cov.mul(&inv).unwrap();
    assert_eq!(by_division.same_value_as(&by_inverse), Some(true));
    assert!(is_value(&by_division, 3, 4));
}
