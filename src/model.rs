//! The steps around the circuits: the shape check at ingress, the divisor
//! and the inverse of the variance that are prepared in the clear, the
//! plaintext fit, and one prediction per input.

use vstd::prelude::*;

use crate::error::RegressionError;
use crate::rational::{checked_div, frac_div, frac_of_int, Frac, Rational};
use crate::stats::{
    all_wf, coefficient_of, fit_impl, intercept_checked, intercept_of, predict_checked, predict_impl,
    predict_of, values, variance_checked, variance_impl, variance_of, lemma_variance_exact, VEC_SIZE,
};

verus! {

/// `1 / VEC_SIZE`, the divisor that the averaging circuits multiply by.
pub open spec fn size_divisor_value() -> Frac {
    Frac { num: 1, den: VEC_SIZE as int }
}

/// The multiplier that stands for division by the variance.
pub open spec fn inverse_of(v: Frac) -> Frac {
    frac_div(frac_of_int(1), v)
}

/// The vector of `VEC_SIZE` elements that `values` holds. Any other length
/// fails with `Shape`: nothing is truncated or padded.
pub fn to_vector<T: Copy>(values: &Vec<T>) -> (r: Result<[T; VEC_SIZE], RegressionError>)
    ensures
        r is Ok <==> values@.len() == VEC_SIZE,
        r is Ok ==> r->Ok_0@ == values@,
        r is Err ==> r->Err_0 == RegressionError::Shape,
{
    if values.len() != VEC_SIZE {
        return Err(RegressionError::Shape);
    }
    let a = [values[0], values[1], values[2], values[3], values[4]];
    assert(a@ =~= values@);
    Ok(a)
}

/// `1 / VEC_SIZE` as a rational.
pub fn size_divisor() -> (r: Rational)
    ensures
        r.wf(),
        r@ == size_divisor_value(),
{
    match Rational::new(1, VEC_SIZE as i128) {
        Ok(d) => d,
        Err(_) => {
            assert(false);
            Rational::from_integer(1)
        },
    }
}

/// `1 / variance(x)`, computed in the clear by whoever holds `x`. Fails with
/// `Encoding` when the variance is zero (all elements equal, so no line can
/// be fitted) or when a value overflows.
pub fn variance_inverse(x: [Rational; VEC_SIZE], divisor: Rational) -> (r: Result<
    Rational,
    RegressionError,
>)
    requires
        all_wf(x@),
        divisor.wf(),
    ensures
        r is Ok <==> checked_div(Some(frac_of_int(1)), variance_checked(values(x@), divisor@)) is Some,
        r is Ok ==> r->Ok_0.wf() && r->Ok_0@ == inverse_of(variance_of(values(x@), divisor@)),
        r is Err ==> r->Err_0 == RegressionError::Encoding,
{
    let v = match variance_impl(x, divisor) {
        Ok(v) => v,
        Err(e) => return Err(e),
    };
    proof {
        lemma_variance_exact(values(x@), divisor@);
    }
    match Rational::from_integer(1).div(&v) {
        Some(inv) => Ok(inv),
        None => Err(RegressionError::Encoding),
    }
}

/// Least squares on plaintext vectors: the divisor is `1 / VEC_SIZE` and the
/// coefficient multiplier is `1 / variance(x)`. Returns `(intercept, coefficient)`.
pub fn fit_plaintext(x: [Rational; VEC_SIZE], y: [Rational; VEC_SIZE]) -> (r: Result<
    (Rational, Rational),
    RegressionError,
>)
    requires
        all_wf(x@),
        all_wf(y@),
    ensures
        r is Ok <==> {
            let inv = checked_div(
                Some(frac_of_int(1)),
                variance_checked(values(x@), size_divisor_value()),
            );
            inv is Some && intercept_checked(values(x@), values(y@), size_divisor_value(), inv->0) is Some
        },
        r is Ok ==> {
            let inv = inverse_of(variance_of(values(x@), size_divisor_value()));
            &&& r->Ok_0.0.wf()
            &&& r->Ok_0.1.wf()
            &&& r->Ok_0.0@ == intercept_of(values(x@), values(y@), size_divisor_value(), inv)
            &&& r->Ok_0.1@ == coefficient_of(values(x@), values(y@), size_divisor_value(), inv)
        },
        r is Err ==> r->Err_0 == RegressionError::Encoding,
{
    let divisor = size_divisor();
    let inv = match variance_inverse(x, divisor) {
        Ok(v) => v,
        Err(e) => return Err(e),
    };
    proof {
        lemma_variance_exact(values(x@), divisor@);
    }
    fit_impl(x, y, divisor, inv)
}

/// One prediction per element of `xs`, in the same order. Fails with
/// `Encoding` exactly when some prediction overflows.
pub fn predict_list_impl(intercept: Rational, coefficient: Rational, xs: &Vec<Rational>) -> (r:
    Result<Vec<Rational>, RegressionError>)
    requires
        intercept.wf(),
        coefficient.wf(),
        all_wf(xs@),
    ensures
        r is Ok <==> forall|i: int|
            0 <= i < xs@.len() ==> (#[trigger] predict_checked(intercept@, coefficient@, xs@[i]@)) is Some,
        r is Ok ==> {
            let out = r->Ok_0@;
            &&& out.len() == xs@.len()
            &&& all_wf(out)
            &&& forall|i: int|
                0 <= i < out.len() ==> #[trigger] out[i]@ == predict_of(intercept@, coefficient@, xs@[i]@)
        },
        r is Err ==> r->Err_0 == RegressionError::Encoding,
{
    let mut out: Vec<Rational> = Vec::new();
    let mut i: usize = 0;
    while i < xs.len()
        invariant
            i <= xs@.len(),
            intercept.wf(),
            coefficient.wf(),
            all_wf(xs@),
            out@.len() == i,
            all_wf(out@),
            forall|j: int|
                0 <= j < i ==> (#[trigger] predict_checked(intercept@, coefficient@, xs@[j]@)) is Some,
            forall|j: int|
                0 <= j < i ==> #[trigger] out@[j]@ == predict_of(intercept@, coefficient@, xs@[j]@),
        decreases xs@.len() - i,
    {
        match predict_impl(intercept, coefficient, xs[i]) {
            Ok(p) => out.push(p),
            Err(e) => return Err(e),
        }
        i = i + 1;
    }
    Ok(out)
}

} // verus!
