//! The statistical circuits (mean, variance, covariance, mean signed error,
//! least-squares fit and prediction) over rationals of width `VEC_SIZE`, each
//! stated twice: as an exact formula, and as the encoding evaluates it, where
//! an overflow leaves no result.

use vstd::prelude::*;

use crate::error::RegressionError;
use crate::rational::{
    checked_add, checked_mul, checked_sub, frac_add, frac_mul, frac_of_int, frac_sub, opt_add,
    opt_mul, opt_sub, opt_view, opt_wf, Frac, Rational,
};

verus! {

/// The width of every vector that a circuit takes.
pub const VEC_SIZE: usize = 5;

/// The values of a sequence of rationals.
pub open spec fn values(s: Seq<Rational>) -> Seq<Frac> {
    s.map_values(|r: Rational| r@)
}

pub open spec fn all_wf(s: Seq<Rational>) -> bool {
    forall|i: int| 0 <= i < s.len() ==> #[trigger] s[i].wf()
}

// ---- The formulas over exact values ----

/// Left-to-right sum, starting from the first element.
pub open spec fn frac_sum(s: Seq<Frac>) -> Frac
    decreases s.len(),
{
    if s.len() == 0 {
        frac_of_int(0)
    } else if s.len() == 1 {
        s[0]
    } else {
        frac_add(frac_sum(s.drop_last()), s.last())
    }
}

pub open spec fn mean_of(xs: Seq<Frac>, d: Frac) -> Frac {
    frac_mul(frac_sum(xs), d)
}

/// The products `(xs[i] - mx) * (ys[i] - my)`.
pub open spec fn deviation_products_of(xs: Seq<Frac>, mx: Frac, ys: Seq<Frac>, my: Frac) -> Seq<
    Frac,
> {
    Seq::new(xs.len(), |i: int| frac_mul(frac_sub(xs[i], mx), frac_sub(ys[i], my)))
}

pub open spec fn covariance_of(xs: Seq<Frac>, ys: Seq<Frac>, d: Frac) -> Frac {
    frac_mul(frac_sum(deviation_products_of(xs, mean_of(xs, d), ys, mean_of(ys, d))), d)
}

pub open spec fn variance_of(xs: Seq<Frac>, d: Frac) -> Frac {
    covariance_of(xs, xs, d)
}

pub open spec fn differences_of(ps: Seq<Frac>, ts: Seq<Frac>) -> Seq<Frac> {
    Seq::new(ps.len(), |i: int| frac_sub(ps[i], ts[i]))
}

/// The mean of the signed differences `ps[i] - ts[i]`: no absolute value is
/// taken, so errors of opposite sign cancel.
pub open spec fn signed_error_of(ps: Seq<Frac>, ts: Seq<Frac>, d: Frac) -> Frac {
    frac_mul(frac_sum(differences_of(ps, ts)), d)
}

pub open spec fn coefficient_of(xs: Seq<Frac>, ys: Seq<Frac>, d: Frac, var_x_inv: Frac) -> Frac {
    frac_mul(covariance_of(xs, ys, d), var_x_inv)
}

pub open spec fn intercept_of(xs: Seq<Frac>, ys: Seq<Frac>, d: Frac, var_x_inv: Frac) -> Frac {
    frac_sub(mean_of(ys, d), frac_mul(coefficient_of(xs, ys, d, var_x_inv), mean_of(xs, d)))
}

pub open spec fn predict_of(intercept: Frac, coefficient: Frac, x: Frac) -> Frac {
    frac_add(intercept, frac_mul(coefficient, x))
}

// ---- The same formulas as the encoding evaluates them: absent on overflow ----

pub open spec fn checked_sum(s: Seq<Option<Frac>>) -> Option<Frac>
    decreases s.len(),
{
    if s.len() == 0 {
        Some(frac_of_int(0))
    } else if s.len() == 1 {
        s[0]
    } else {
        checked_add(checked_sum(s.drop_last()), s.last())
    }
}

pub open spec fn lift(s: Seq<Frac>) -> Seq<Option<Frac>> {
    s.map_values(|f: Frac| Some(f))
}

pub open spec fn mean_checked(xs: Seq<Frac>, d: Frac) -> Option<Frac> {
    checked_mul(checked_sum(lift(xs)), Some(d))
}

pub open spec fn deviation_products_checked(xs: Seq<Frac>, mx: Frac, ys: Seq<Frac>, my: Frac) -> Seq<
    Option<Frac>,
> {
    Seq::new(
        xs.len(),
        |i: int| checked_mul(checked_sub(Some(xs[i]), Some(mx)), checked_sub(Some(ys[i]), Some(my))),
    )
}

pub open spec fn covariance_checked(xs: Seq<Frac>, ys: Seq<Frac>, d: Frac) -> Option<Frac> {
    let mx = mean_checked(xs, d);
    let my = mean_checked(ys, d);
    if mx is Some && my is Some {
        checked_mul(checked_sum(deviation_products_checked(xs, mx->0, ys, my->0)), Some(d))
    } else {
        None
    }
}

pub open spec fn variance_checked(xs: Seq<Frac>, d: Frac) -> Option<Frac> {
    let m = mean_checked(xs, d);
    if m is Some {
        checked_mul(checked_sum(deviation_products_checked(xs, m->0, xs, m->0)), Some(d))
    } else {
        None
    }
}

pub open spec fn differences_checked(ps: Seq<Frac>, ts: Seq<Frac>) -> Seq<Option<Frac>> {
    Seq::new(ps.len(), |i: int| checked_sub(Some(ps[i]), Some(ts[i])))
}

pub open spec fn signed_error_checked(ps: Seq<Frac>, ts: Seq<Frac>, d: Frac) -> Option<Frac> {
    checked_mul(checked_sum(differences_checked(ps, ts)), Some(d))
}

pub open spec fn coefficient_checked(xs: Seq<Frac>, ys: Seq<Frac>, d: Frac, var_x_inv: Frac) -> Option<
    Frac,
> {
    checked_mul(covariance_checked(xs, ys, d), Some(var_x_inv))
}

pub open spec fn intercept_checked(xs: Seq<Frac>, ys: Seq<Frac>, d: Frac, var_x_inv: Frac) -> Option<
    Frac,
> {
    checked_sub(
        mean_checked(ys, d),
        checked_mul(coefficient_checked(xs, ys, d, var_x_inv), mean_checked(xs, d)),
    )
}

pub open spec fn predict_checked(intercept: Frac, coefficient: Frac, x: Frac) -> Option<Frac> {
    checked_add(Some(intercept), checked_mul(Some(coefficient), Some(x)))
}

// ---- Links between the two layers ----

/// The elements of a sequence of present values.
pub open spec fn unwrap_all(s: Seq<Option<Frac>>) -> Seq<Frac> {
    s.map_values(|o: Option<Frac>| o->0)
}

/// A sum that does not overflow is the exact sum of its terms, all present.
pub proof fn lemma_checked_sum_exact(s: Seq<Option<Frac>>)
    requires
        checked_sum(s) is Some,
    ensures
        forall|i: int| 0 <= i < s.len() ==> #[trigger] s[i] is Some,
        checked_sum(s)->0 == frac_sum(unwrap_all(s)),
    decreases s.len(),
{
    if s.len() > 1 {
        lemma_checked_sum_exact(s.drop_last());
        assert(unwrap_all(s).drop_last() =~= unwrap_all(s.drop_last()));
        assert forall|i: int| 0 <= i < s.len() implies #[trigger] s[i] is Some by {
            if i < s.len() - 1 {
                assert(s.drop_last()[i] == s[i]);
            }
        }
    }
}

pub proof fn lemma_mean_exact(xs: Seq<Frac>, d: Frac)
    requires
        mean_checked(xs, d) is Some,
    ensures
        mean_checked(xs, d)->0 == mean_of(xs, d),
{
    lemma_checked_sum_exact(lift(xs));
    assert(unwrap_all(lift(xs)) =~= xs);
}

proof fn lemma_deviations_exact(xs: Seq<Frac>, mx: Frac, ys: Seq<Frac>, my: Frac)
    requires
        xs.len() == ys.len(),
        checked_sum(deviation_products_checked(xs, mx, ys, my)) is Some,
    ensures
        checked_sum(deviation_products_checked(xs, mx, ys, my))->0 == frac_sum(
            deviation_products_of(xs, mx, ys, my),
        ),
{
    let s = deviation_products_checked(xs, mx, ys, my);
    lemma_checked_sum_exact(s);
    assert forall|i: int| 0 <= i < xs.len() implies unwrap_all(s)[i] == deviation_products_of(
        xs,
        mx,
        ys,
        my,
    )[i] by {
        assert(s[i] is Some);
    }
    assert(unwrap_all(s) =~= deviation_products_of(xs, mx, ys, my));
}

pub proof fn lemma_covariance_exact(xs: Seq<Frac>, ys: Seq<Frac>, d: Frac)
    requires
        xs.len() == ys.len(),
        covariance_checked(xs, ys, d) is Some,
    ensures
        covariance_checked(xs, ys, d)->0 == covariance_of(xs, ys, d),
{
    lemma_mean_exact(xs, d);
    lemma_mean_exact(ys, d);
    lemma_deviations_exact(xs, mean_of(xs, d), ys, mean_of(ys, d));
}

pub proof fn lemma_variance_exact(xs: Seq<Frac>, d: Frac)
    requires
        variance_checked(xs, d) is Some,
    ensures
        variance_checked(xs, d)->0 == variance_of(xs, d),
{
    lemma_mean_exact(xs, d);
    lemma_deviations_exact(xs, mean_of(xs, d), xs, mean_of(xs, d));
}

pub proof fn lemma_signed_error_exact(ps: Seq<Frac>, ts: Seq<Frac>, d: Frac)
    requires
        ps.len() == ts.len(),
        signed_error_checked(ps, ts, d) is Some,
    ensures
        signed_error_checked(ps, ts, d)->0 == signed_error_of(ps, ts, d),
{
    let s = differences_checked(ps, ts);
    lemma_checked_sum_exact(s);
    assert forall|i: int| 0 <= i < ps.len() implies unwrap_all(s)[i] == differences_of(ps, ts)[i] by {
        assert(s[i] is Some);
    }
    assert(unwrap_all(s) =~= differences_of(ps, ts));
}

pub proof fn lemma_fit_exact(xs: Seq<Frac>, ys: Seq<Frac>, d: Frac, var_x_inv: Frac)
    requires
        xs.len() == ys.len(),
        intercept_checked(xs, ys, d, var_x_inv) is Some,
    ensures
        coefficient_checked(xs, ys, d, var_x_inv) == Some(coefficient_of(xs, ys, d, var_x_inv)),
        intercept_checked(xs, ys, d, var_x_inv) == Some(intercept_of(xs, ys, d, var_x_inv)),
{
    lemma_covariance_exact(xs, ys, d);
    lemma_mean_exact(xs, d);
    lemma_mean_exact(ys, d);
}

// ---- The circuits ----

fn mean_opt(x: &[Rational; VEC_SIZE], divisor: &Rational) -> (r: Option<Rational>)
    requires
        all_wf(x@),
        divisor.wf(),
    ensures
        opt_view(r) == mean_checked(values(x@), divisor@),
        opt_wf(r),
{
    let ghost terms = lift(values(x@));
    let mut acc: Option<Rational> = Some(x[0]);
    let mut i: usize = 1;
    assert(terms.take(1) =~= seq![Some(x@[0]@)]);
    while i < VEC_SIZE
        invariant
            1 <= i <= VEC_SIZE,
            all_wf(x@),
            terms == lift(values(x@)),
            opt_wf(acc),
            opt_view(acc) == checked_sum(terms.take(i as int)),
        decreases VEC_SIZE - i,
    {
        assert(terms.take(i + 1).drop_last() =~= terms.take(i as int));
        acc = opt_add(acc, Some(x[i]));
        i = i + 1;
    }
    assert(terms.take(VEC_SIZE as int) =~= terms);
    opt_mul(acc, Some(*divisor))
}

fn covariance_opt(x: &[Rational; VEC_SIZE], y: &[Rational; VEC_SIZE], divisor: &Rational) -> (r:
    Option<Rational>)
    requires
        all_wf(x@),
        all_wf(y@),
        divisor.wf(),
    ensures
        opt_view(r) == covariance_checked(values(x@), values(y@), divisor@),
        opt_wf(r),
{
    let mean_x = match mean_opt(x, divisor) {
        Some(m) => m,
        None => return None,
    };
    let mean_y = match mean_opt(y, divisor) {
        Some(m) => m,
        None => return None,
    };
    let ghost terms = deviation_products_checked(values(x@), mean_x@, values(y@), mean_y@);
    let mut acc = opt_mul(x[0].sub(&mean_x), y[0].sub(&mean_y));
    let mut i: usize = 1;
    assert(terms.take(1) =~= seq![terms[0]]);
    while i < VEC_SIZE
        invariant
            1 <= i <= VEC_SIZE,
            all_wf(x@),
            all_wf(y@),
            mean_x.wf(),
            mean_y.wf(),
            terms == deviation_products_checked(values(x@), mean_x@, values(y@), mean_y@),
            opt_wf(acc),
            opt_view(acc) == checked_sum(terms.take(i as int)),
        decreases VEC_SIZE - i,
    {
        assert(terms.take(i + 1).drop_last() =~= terms.take(i as int));
        acc = opt_add(acc, opt_mul(x[i].sub(&mean_x), y[i].sub(&mean_y)));
        i = i + 1;
    }
    assert(terms.take(VEC_SIZE as int) =~= terms);
    opt_mul(acc, Some(*divisor))
}

fn variance_opt(x: &[Rational; VEC_SIZE], divisor: &Rational) -> (r: Option<Rational>)
    requires
        all_wf(x@),
        divisor.wf(),
    ensures
        opt_view(r) == variance_checked(values(x@), divisor@),
        opt_wf(r),
{
    let m = match mean_opt(x, divisor) {
        Some(m) => m,
        None => return None,
    };
    let ghost terms = deviation_products_checked(values(x@), m@, values(x@), m@);
    let d0 = x[0].sub(&m);
    let mut acc = opt_mul(d0, d0);
    let mut i: usize = 1;
    assert(terms.take(1) =~= seq![terms[0]]);
    while i < VEC_SIZE
        invariant
            1 <= i <= VEC_SIZE,
            all_wf(x@),
            m.wf(),
            terms == deviation_products_checked(values(x@), m@, values(x@), m@),
            opt_wf(acc),
            opt_view(acc) == checked_sum(terms.take(i as int)),
        decreases VEC_SIZE - i,
    {
        assert(terms.take(i + 1).drop_last() =~= terms.take(i as int));
        let di = x[i].sub(&m);
        acc = opt_add(acc, opt_mul(di, di));
        i = i + 1;
    }
    assert(terms.take(VEC_SIZE as int) =~= terms);
    opt_mul(acc, Some(*divisor))
}

fn signed_error_opt(y_pred: &[Rational; VEC_SIZE], y_test: &[Rational; VEC_SIZE], divisor: &Rational) -> (r:
    Option<Rational>)
    requires
        all_wf(y_pred@),
        all_wf(y_test@),
        divisor.wf(),
    ensures
        opt_view(r) == signed_error_checked(values(y_pred@), values(y_test@), divisor@),
        opt_wf(r),
{
    let ghost terms = differences_checked(values(y_pred@), values(y_test@));
    let mut acc = y_pred[0].sub(&y_test[0]);
    let mut i: usize = 1;
    assert(terms.take(1) =~= seq![terms[0]]);
    while i < VEC_SIZE
        invariant
            1 <= i <= VEC_SIZE,
            all_wf(y_pred@),
            all_wf(y_test@),
            terms == differences_checked(values(y_pred@), values(y_test@)),
            opt_wf(acc),
            opt_view(acc) == checked_sum(terms.take(i as int)),
        decreases VEC_SIZE - i,
    {
        assert(terms.take(i + 1).drop_last() =~= terms.take(i as int));
        acc = opt_add(acc, y_pred[i].sub(&y_test[i]));
        i = i + 1;
    }
    assert(terms.take(VEC_SIZE as int) =~= terms);
    opt_mul(acc, Some(*divisor))
}

/// The mean of `x`: its sum times `divisor`, which stands for `1 / VEC_SIZE`.
/// Fails with `Encoding` exactly when an intermediate value overflows.
pub fn mean_impl(x: [Rational; VEC_SIZE], divisor: Rational) -> (r: Result<Rational, RegressionError>)
    requires
        all_wf(x@),
        divisor.wf(),
    ensures
        r is Ok <==> mean_checked(values(x@), divisor@) is Some,
        r is Ok ==> r->Ok_0.wf() && r->Ok_0@ == mean_of(values(x@), divisor@),
        r is Err ==> r->Err_0 == RegressionError::Encoding,
{
    match mean_opt(&x, &divisor) {
        Some(m) => {
            proof {
                lemma_mean_exact(values(x@), divisor@);
            }
            Ok(m)
        },
        None => Err(RegressionError::Encoding),
    }
}

/// The variance of `x`: the sum of the squared deviations from the mean,
/// times `divisor`. Fails with `Encoding` exactly when an intermediate value
/// overflows.
pub fn variance_impl(x: [Rational; VEC_SIZE], divisor: Rational) -> (r: Result<Rational, RegressionError>)
    requires
        all_wf(x@),
        divisor.wf(),
    ensures
        r is Ok <==> variance_checked(values(x@), divisor@) is Some,
        r is Ok ==> r->Ok_0.wf() && r->Ok_0@ == variance_of(values(x@), divisor@),
        r is Err ==> r->Err_0 == RegressionError::Encoding,
{
    match variance_opt(&x, &divisor) {
        Some(v) => {
            proof {
                lemma_variance_exact(values(x@), divisor@);
            }
            Ok(v)
        },
        None => Err(RegressionError::Encoding),
    }
}

/// The covariance of `x` and `y`: the sum of the products of their deviations
/// from their means, times `divisor`. Fails with `Encoding` exactly when an
/// intermediate value overflows.
pub fn covariance_impl(x: [Rational; VEC_SIZE], y: [Rational; VEC_SIZE], divisor: Rational) -> (r:
    Result<Rational, RegressionError>)
    requires
        all_wf(x@),
        all_wf(y@),
        divisor.wf(),
    ensures
        r is Ok <==> covariance_checked(values(x@), values(y@), divisor@) is Some,
        r is Ok ==> r->Ok_0.wf() && r->Ok_0@ == covariance_of(values(x@), values(y@), divisor@),
        r is Err ==> r->Err_0 == RegressionError::Encoding,
{
    match covariance_opt(&x, &y, &divisor) {
        Some(v) => {
            proof {
                lemma_covariance_exact(values(x@), values(y@), divisor@);
            }
            Ok(v)
        },
        None => Err(RegressionError::Encoding),
    }
}

/// The mean signed error of a prediction: the sum of `y_pred[i] - y_test[i]`
/// times `divisor`. No absolute value is taken (none is available under
/// encryption), so errors of opposite sign cancel. Fails with `Encoding`
/// exactly when an intermediate value overflows.
pub fn mean_absolute_error_impl(
    y_pred: [Rational; VEC_SIZE],
    y_test: [Rational; VEC_SIZE],
    divisor: Rational,
) -> (r: Result<Rational, RegressionError>)
    requires
        all_wf(y_pred@),
        all_wf(y_test@),
        divisor.wf(),
    ensures
        r is Ok <==> signed_error_checked(values(y_pred@), values(y_test@), divisor@) is Some,
        r is Ok ==> r->Ok_0.wf() && r->Ok_0@ == signed_error_of(
            values(y_pred@),
            values(y_test@),
            divisor@,
        ),
        r is Err ==> r->Err_0 == RegressionError::Encoding,
{
    match signed_error_opt(&y_pred, &y_test, &divisor) {
        Some(v) => {
            proof {
                lemma_signed_error_exact(values(y_pred@), values(y_test@), divisor@);
            }
            Ok(v)
        },
        None => Err(RegressionError::Encoding),
    }
}

/// Closed-form least squares: `coefficient = covariance(x, y) * var_x_inv` and
/// `intercept = mean(y) - coefficient * mean(x)`, returned as
/// `(intercept, coefficient)`. `var_x_inv` stands for `1 / variance(x)`,
/// computed by whoever holds `x` in the clear. Fails with `Encoding` exactly
/// when an intermediate value overflows.
pub fn fit_impl(
    x: [Rational; VEC_SIZE],
    y: [Rational; VEC_SIZE],
    divisor: Rational,
    var_x_inv: Rational,
) -> (r: Result<(Rational, Rational), RegressionError>)
    requires
        all_wf(x@),
        all_wf(y@),
        divisor.wf(),
        var_x_inv.wf(),
    ensures
        r is Ok <==> intercept_checked(values(x@), values(y@), divisor@, var_x_inv@) is Some,
        r is Ok ==> {
            &&& r->Ok_0.0.wf()
            &&& r->Ok_0.1.wf()
            &&& r->Ok_0.0@ == intercept_of(values(x@), values(y@), divisor@, var_x_inv@)
            &&& r->Ok_0.1@ == coefficient_of(values(x@), values(y@), divisor@, var_x_inv@)
        },
        r is Err ==> r->Err_0 == RegressionError::Encoding,
{
    let coefficient = opt_mul(covariance_opt(&x, &y, &divisor), Some(var_x_inv));
    let intercept = opt_sub(mean_opt(&y, &divisor), opt_mul(coefficient, mean_opt(&x, &divisor)));
    match intercept {
        Some(a) => {
            proof {
                lemma_fit_exact(values(x@), values(y@), divisor@, var_x_inv@);
            }
            match coefficient {
                Some(b) => Ok((a, b)),
                None => Err(RegressionError::Encoding),
            }
        },
        None => Err(RegressionError::Encoding),
    }
}

/// The prediction `intercept + coefficient * x`. Fails with `Encoding`
/// exactly when an intermediate value overflows.
pub fn predict_impl(intercept: Rational, coefficient: Rational, x: Rational) -> (r: Result<
    Rational,
    RegressionError,
>)
    requires
        intercept.wf(),
        coefficient.wf(),
        x.wf(),
    ensures
        r is Ok <==> predict_checked(intercept@, coefficient@, x@) is Some,
        r is Ok ==> r->Ok_0.wf() && r->Ok_0@ == predict_of(intercept@, coefficient@, x@),
        r is Err ==> r->Err_0 == RegressionError::Encoding,
{
    match opt_add(Some(intercept), coefficient.mul(&x)) {
        Some(v) => Ok(v),
        None => Err(RegressionError::Encoding),
    }
}

} // verus!
