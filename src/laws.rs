//! Properties that relate the circuits to one another, stated over values.

use vstd::prelude::*;
use vstd::arithmetic::mul::{lemma_mul_is_distributive_add_other_way, lemma_mul_strictly_positive};

use crate::model::{inverse_of, size_divisor_value};
use crate::rational::{
    frac_add, frac_div, frac_mul, frac_of_int, frac_sub, lemma_normalize, raw_add, raw_div, raw_mul,
    raw_sub, same_value, Frac,
};
use crate::stats::{
    coefficient_of, covariance_of, deviation_products_of, frac_sum, intercept_of, mean_of, predict_of,
    variance_of, VEC_SIZE,
};

verus! {

/// Every fraction of the sequence has a positive denominator.
pub open spec fn positive_dens(s: Seq<Frac>) -> bool {
    forall|i: int| 0 <= i < s.len() ==> #[trigger] s[i].den > 0
}

proof fn lemma_same_value_trans(a: Frac, b: Frac, c: Frac)
    requires
        b.den != 0,
        same_value(a, b),
        same_value(b, c),
    ensures
        same_value(a, c),
{
    assert((a.num * c.den - c.num * a.den) * b.den == 0) by (nonlinear_arith)
        requires
            a.num * b.den == b.num * a.den,
            b.num * c.den == c.num * b.den,
    ;
    assert(a.num * c.den - c.num * a.den == 0) by (nonlinear_arith)
        requires
            (a.num * c.den - c.num * a.den) * b.den == 0,
            b.den != 0,
    ;
}

/// The operations in lowest terms keep a positive denominator and have the
/// value of the plain operations.
proof fn lemma_ops(a: Frac, b: Frac)
    requires
        a.den > 0,
        b.den > 0,
    ensures
        frac_add(a, b).den > 0,
        frac_sub(a, b).den > 0,
        frac_mul(a, b).den > 0,
        same_value(frac_add(a, b), raw_add(a, b)),
        same_value(frac_sub(a, b), raw_sub(a, b)),
        same_value(frac_mul(a, b), raw_mul(a, b)),
        raw_mul(a, b).den > 0,
{
    lemma_mul_strictly_positive(a.den, b.den);
    lemma_normalize(raw_add(a, b));
    lemma_normalize(raw_sub(a, b));
    lemma_normalize(raw_mul(a, b));
}

proof fn lemma_mul_congruence(a: Frac, b: Frac, c: Frac)
    requires
        same_value(a, b),
    ensures
        same_value(raw_mul(a, c), raw_mul(b, c)),
{
    assert((a.num * c.num) * (b.den * c.den) == (b.num * c.num) * (a.den * c.den)) by (nonlinear_arith)
        requires
            a.num * b.den == b.num * a.den,
    ;
}

proof fn lemma_mul_congruence_right(c: Frac, a: Frac, b: Frac)
    requires
        same_value(a, b),
    ensures
        same_value(raw_mul(c, a), raw_mul(c, b)),
{
    assert((c.num * a.num) * (c.den * b.den) == (c.num * b.num) * (c.den * a.den)) by (nonlinear_arith)
        requires
            a.num * b.den == b.num * a.den,
    ;
}

proof fn lemma_add_congruence(a: Frac, b: Frac, c: Frac)
    requires
        same_value(a, b),
    ensures
        same_value(raw_add(a, c), raw_add(b, c)),
{
    lemma_mul_is_distributive_add_other_way(b.den * c.den, a.num * c.den, c.num * a.den);
    lemma_mul_is_distributive_add_other_way(a.den * c.den, b.num * c.den, c.num * b.den);
    assert((a.num * c.den) * (b.den * c.den) == (a.num * b.den) * (c.den * c.den)) by (nonlinear_arith);
    assert((b.num * c.den) * (a.den * c.den) == (b.num * a.den) * (c.den * c.den)) by (nonlinear_arith);
    assert((c.num * a.den) * (b.den * c.den) == c.num * (a.den * b.den * c.den)) by (nonlinear_arith);
    assert((c.num * b.den) * (a.den * c.den) == c.num * (a.den * b.den * c.den)) by (nonlinear_arith);
}

proof fn lemma_sum_positive(s: Seq<Frac>)
    requires
        positive_dens(s),
    ensures
        frac_sum(s).den > 0,
    decreases s.len(),
{
    if s.len() > 1 {
        assert(positive_dens(s.drop_last()));
        lemma_sum_positive(s.drop_last());
        lemma_ops(frac_sum(s.drop_last()), s.last());
    }
}

proof fn lemma_mean_positive(xs: Seq<Frac>, d: Frac)
    requires
        positive_dens(xs),
        d.den > 0,
    ensures
        mean_of(xs, d).den > 0,
{
    lemma_sum_positive(xs);
    lemma_ops(frac_sum(xs), d);
}

proof fn lemma_covariance_positive(xs: Seq<Frac>, ys: Seq<Frac>, d: Frac)
    requires
        xs.len() == ys.len(),
        positive_dens(xs),
        positive_dens(ys),
        d.den > 0,
    ensures
        covariance_of(xs, ys, d).den > 0,
{
    let mx = mean_of(xs, d);
    let my = mean_of(ys, d);
    lemma_mean_positive(xs, d);
    lemma_mean_positive(ys, d);
    let p = deviation_products_of(xs, mx, ys, my);
    assert forall|i: int| 0 <= i < p.len() implies #[trigger] p[i].den > 0 by {
        lemma_ops(xs[i], mx);
        lemma_ops(ys[i], my);
        lemma_ops(frac_sub(xs[i], mx), frac_sub(ys[i], my));
    }
    lemma_sum_positive(p);
    lemma_ops(frac_sum(p), d);
}

/// With a divisor that stands for `1 / VEC_SIZE`, the mean is the arithmetic
/// mean: `VEC_SIZE` times the mean is the sum of the elements.
pub proof fn lemma_mean_is_average(xs: Seq<Frac>, d: Frac)
    requires
        xs.len() == VEC_SIZE,
        positive_dens(xs),
        d.den > 0,
        same_value(d, size_divisor_value()),
    ensures
        same_value(frac_mul(mean_of(xs, d), frac_of_int(VEC_SIZE as int)), frac_sum(xs)),
{
    let s = frac_sum(xs);
    let m = mean_of(xs, d);
    let n = frac_of_int(VEC_SIZE as int);
    lemma_sum_positive(xs);
    lemma_ops(s, d);
    lemma_ops(m, n);
    lemma_mul_congruence(m, raw_mul(s, d), n);
    assert((s.num * d.num * 5) * s.den == s.num * (s.den * d.den * 1)) by (nonlinear_arith)
        requires
            d.num * 5 == 1 * d.den,
    ;
    lemma_ops(raw_mul(s, d), n);
    lemma_same_value_trans(frac_mul(m, n), raw_mul(m, n), raw_mul(raw_mul(s, d), n));
    lemma_same_value_trans(frac_mul(m, n), raw_mul(raw_mul(s, d), n), s);
}

/// The fit is the least-squares line: where `var_x_inv` is the inverse of the
/// variance of `xs`, the coefficient times that variance is the covariance of
/// `xs` and `ys`, and the line passes through the point of means.
pub proof fn lemma_fit_is_least_squares(xs: Seq<Frac>, ys: Seq<Frac>, d: Frac, var_x_inv: Frac)
    requires
        xs.len() == VEC_SIZE,
        ys.len() == VEC_SIZE,
        positive_dens(xs),
        positive_dens(ys),
        d.den > 0,
        var_x_inv.den > 0,
        same_value(frac_mul(var_x_inv, variance_of(xs, d)), frac_of_int(1)),
    ensures
        same_value(
            frac_mul(coefficient_of(xs, ys, d, var_x_inv), variance_of(xs, d)),
            covariance_of(xs, ys, d),
        ),
        same_value(
            predict_of(
                intercept_of(xs, ys, d, var_x_inv),
                coefficient_of(xs, ys, d, var_x_inv),
                mean_of(xs, d),
            ),
            mean_of(ys, d),
        ),
{
    let c = covariance_of(xs, ys, d);
    let v = variance_of(xs, d);
    let k = coefficient_of(xs, ys, d, var_x_inv);
    lemma_covariance_positive(xs, ys, d);
    lemma_covariance_positive(xs, xs, d);
    lemma_ops(var_x_inv, v);
    assert(var_x_inv.num * v.num == var_x_inv.den * v.den) by (nonlinear_arith)
        requires
            frac_mul(var_x_inv, v).num * 1 == 1 * frac_mul(var_x_inv, v).den,
            frac_mul(var_x_inv, v).num * (var_x_inv.den * v.den) == (var_x_inv.num * v.num) * frac_mul(
                var_x_inv,
                v,
            ).den,
            frac_mul(var_x_inv, v).den > 0,
    ;
    // k * v ~ (c * var_x_inv) * v ~ c
    lemma_ops(c, var_x_inv);
    lemma_ops(k, v);
    lemma_mul_congruence(k, raw_mul(c, var_x_inv), v);
    lemma_ops(raw_mul(c, var_x_inv), v);
    assert((c.num * var_x_inv.num * v.num) * c.den == c.num * (c.den * var_x_inv.den * v.den))
        by (nonlinear_arith)
        requires
            var_x_inv.num * v.num == var_x_inv.den * v.den,
    ;
    lemma_same_value_trans(frac_mul(k, v), raw_mul(k, v), raw_mul(raw_mul(c, var_x_inv), v));
    lemma_same_value_trans(frac_mul(k, v), raw_mul(raw_mul(c, var_x_inv), v), c);
    // (my - b) + b ~ my, where b = k * mx
    let mx = mean_of(xs, d);
    let my = mean_of(ys, d);
    lemma_mean_positive(xs, d);
    lemma_mean_positive(ys, d);
    lemma_ops(k, mx);
    let b = frac_mul(k, mx);
    lemma_ops(my, b);
    let i = frac_sub(my, b);
    lemma_ops(i, b);
    lemma_add_congruence(i, raw_sub(my, b), b);
    assert(((my.num * b.den - b.num * my.den) * b.den + b.num * (my.den * b.den)) * my.den == my.num
        * ((my.den * b.den) * b.den)) by (nonlinear_arith);
    lemma_mul_strictly_positive(my.den, b.den);
    lemma_mul_strictly_positive(my.den * b.den, b.den);
    lemma_same_value_trans(frac_add(i, b), raw_add(i, b), raw_add(raw_sub(my, b), b));
    lemma_same_value_trans(frac_add(i, b), raw_add(raw_sub(my, b), b), my);
}

/// The inverse of a nonzero value times that value is one.
pub proof fn lemma_inverse_is_inverse(v: Frac)
    requires
        v.num != 0,
        v.den > 0,
    ensures
        inverse_of(v).den > 0,
        same_value(frac_mul(inverse_of(v), v), frac_of_int(1)),
{
    let one = frac_of_int(1);
    let q = raw_div(one, v);
    assert(q.den > 0 && q.num * v.num == q.den * v.den) by (nonlinear_arith)
        requires
            v.num != 0,
            v.den > 0,
            q == raw_div(one, v),
            one == frac_of_int(1),
    ;
    lemma_normalize(q);
    let inv = inverse_of(v);
    lemma_ops(inv, v);
    lemma_mul_congruence(inv, q, v);
    lemma_ops(q, v);
    lemma_same_value_trans(frac_mul(inv, v), raw_mul(inv, v), raw_mul(q, v));
    lemma_same_value_trans(frac_mul(inv, v), raw_mul(q, v), one);
}

/// Dividing by a nonzero value and multiplying by its inverse give the same
/// number: the coefficient that a circuit computes by division is the one that
/// the plaintext fit computes with `inverse_of`.
pub proof fn lemma_division_matches_inverse(c: Frac, v: Frac)
    requires
        c.den > 0,
        v.den > 0,
        v.num != 0,
    ensures
        same_value(frac_div(c, v), frac_mul(c, inverse_of(v))),
{
    let one = frac_of_int(1);
    let q = raw_div(one, v);
    let e = raw_div(c, v);
    assert(q.den > 0 && e.den > 0 && same_value(e, raw_mul(c, q))) by (nonlinear_arith)
        requires
            c.den > 0,
            v.num != 0,
            v.den > 0,
            q == raw_div(one, v),
            e == raw_div(c, v),
            one == frac_of_int(1),
    ;
    lemma_normalize(q);
    lemma_normalize(e);
    let inv = inverse_of(v);
    lemma_mul_congruence_right(c, q, inv);
    lemma_ops(c, inv);
    lemma_mul_strictly_positive(c.den, q.den);
    lemma_same_value_trans(frac_div(c, v), e, raw_mul(c, q));
    lemma_same_value_trans(frac_div(c, v), raw_mul(c, q), raw_mul(c, inv));
    assert(same_value(raw_mul(c, inv), frac_mul(c, inv)));
    lemma_same_value_trans(frac_div(c, v), raw_mul(c, inv), frac_mul(c, inv));
}

/// The plaintext fit, with divisor `1 / VEC_SIZE` and multiplier
/// `1 / variance(xs)`, is the least-squares line wherever the variance is
/// nonzero.
pub proof fn lemma_fit_plaintext_is_least_squares(xs: Seq<Frac>, ys: Seq<Frac>)
    requires
        xs.len() == VEC_SIZE,
        ys.len() == VEC_SIZE,
        positive_dens(xs),
        positive_dens(ys),
        variance_of(xs, size_divisor_value()).num != 0,
    ensures
        ({
            let d = size_divisor_value();
            let inv = inverse_of(variance_of(xs, d));
            &&& same_value(
                frac_mul(coefficient_of(xs, ys, d, inv), variance_of(xs, d)),
                covariance_of(xs, ys, d),
            )
            &&& same_value(
                predict_of(intercept_of(xs, ys, d, inv), coefficient_of(xs, ys, d, inv), mean_of(xs, d)),
                mean_of(ys, d),
            )
        }),
{
    let d = size_divisor_value();
    lemma_covariance_positive(xs, xs, d);
    lemma_inverse_is_inverse(variance_of(xs, d));
    lemma_fit_is_least_squares(xs, ys, d, inverse_of(variance_of(xs, d)));
}

} // verus!
