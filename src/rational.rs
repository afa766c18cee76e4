//! The rational encoding: a numerator over a positive denominator, with
//! checked arithmetic whose results are kept in lowest terms.

use vstd::prelude::*;
use vstd::arithmetic::div_mod::{lemma_fundamental_div_mod, lemma_fundamental_div_mod_converse};
use vstd::arithmetic::mul::lemma_mul_strictly_positive;

use crate::error::RegressionError;

verus! {

/// The value of a fraction: numerator over denominator, as unbounded integers.
/// Fractions are never reduced, so two different `Frac`s may stand for the same
/// number (see `same_value`).
pub struct Frac {
    pub num: int,
    pub den: int,
}

/// The symmetric 128-bit range: `i128::MIN` is left out so that every
/// value in range can be negated.
pub open spec fn in_range(v: int) -> bool {
    -i128::MAX <= v <= i128::MAX
}

pub open spec fn abs(v: int) -> nat {
    if v < 0 {
        (-v) as nat
    } else {
        v as nat
    }
}

/// Greatest common divisor, by Euclid's algorithm.
pub open spec fn gcd(a: nat, b: nat) -> nat
    decreases b,
{
    if b == 0 {
        a
    } else {
        gcd(b, a % b)
    }
}

/// The fraction in lowest terms: numerator and denominator divided by their
/// greatest common divisor.
pub open spec fn normalize(f: Frac) -> Frac {
    let g = gcd(abs(f.num), abs(f.den));
    if g == 0 {
        f
    } else {
        Frac { num: f.num / g as int, den: f.den / g as int }
    }
}

pub open spec fn frac_of_int(n: int) -> Frac {
    Frac { num: n, den: 1 }
}

pub open spec fn raw_add(a: Frac, b: Frac) -> Frac {
    Frac { num: a.num * b.den + b.num * a.den, den: a.den * b.den }
}

pub open spec fn raw_sub(a: Frac, b: Frac) -> Frac {
    Frac { num: a.num * b.den - b.num * a.den, den: a.den * b.den }
}

pub open spec fn raw_mul(a: Frac, b: Frac) -> Frac {
    Frac { num: a.num * b.num, den: a.den * b.den }
}

/// Quotient of two fractions, with the sign moved to the numerator.
pub open spec fn raw_div(a: Frac, b: Frac) -> Frac {
    if b.num < 0 {
        Frac { num: -(a.num * b.den), den: -(a.den * b.num) }
    } else {
        Frac { num: a.num * b.den, den: a.den * b.num }
    }
}

/// Sum in lowest terms.
pub open spec fn frac_add(a: Frac, b: Frac) -> Frac {
    normalize(raw_add(a, b))
}

/// Difference in lowest terms.
pub open spec fn frac_sub(a: Frac, b: Frac) -> Frac {
    normalize(raw_sub(a, b))
}

/// Product in lowest terms.
pub open spec fn frac_mul(a: Frac, b: Frac) -> Frac {
    normalize(raw_mul(a, b))
}

/// Quotient in lowest terms.
pub open spec fn frac_div(a: Frac, b: Frac) -> Frac {
    normalize(raw_div(a, b))
}

/// The two fractions stand for the same number.
pub open spec fn same_value(a: Frac, b: Frac) -> bool {
    a.num * b.den == b.num * a.den
}

pub open spec fn add_fits(a: Frac, b: Frac) -> bool {
    &&& in_range(a.num * b.den)
    &&& in_range(b.num * a.den)
    &&& in_range(a.num * b.den + b.num * a.den)
    &&& in_range(a.den * b.den)
}

pub open spec fn sub_fits(a: Frac, b: Frac) -> bool {
    &&& in_range(a.num * b.den)
    &&& in_range(b.num * a.den)
    &&& in_range(a.num * b.den - b.num * a.den)
    &&& in_range(a.den * b.den)
}

pub open spec fn mul_fits(a: Frac, b: Frac) -> bool {
    in_range(a.num * b.num) && in_range(a.den * b.den)
}

pub open spec fn div_fits(a: Frac, b: Frac) -> bool {
    &&& b.num != 0
    &&& in_range(a.num * b.den)
    &&& in_range(a.den * b.num)
}

/// Addition as the encoding performs it: absent when an operand is absent or
/// when a product or the sum leaves the 128-bit range. The result is
/// in lowest terms.
pub open spec fn checked_add(a: Option<Frac>, b: Option<Frac>) -> Option<Frac> {
    if a is Some && b is Some && add_fits(a->0, b->0) {
        Some(frac_add(a->0, b->0))
    } else {
        None
    }
}

pub open spec fn checked_sub(a: Option<Frac>, b: Option<Frac>) -> Option<Frac> {
    if a is Some && b is Some && sub_fits(a->0, b->0) {
        Some(frac_sub(a->0, b->0))
    } else {
        None
    }
}

pub open spec fn checked_mul(a: Option<Frac>, b: Option<Frac>) -> Option<Frac> {
    if a is Some && b is Some && mul_fits(a->0, b->0) {
        Some(frac_mul(a->0, b->0))
    } else {
        None
    }
}

pub open spec fn checked_div(a: Option<Frac>, b: Option<Frac>) -> Option<Frac> {
    if a is Some && b is Some && div_fits(a->0, b->0) {
        Some(frac_div(a->0, b->0))
    } else {
        None
    }
}

/// A rational number in the encoding that supports division: a 128-bit
/// numerator over a positive 128-bit denominator. Arithmetic results are
/// kept in lowest terms.
#[derive(Clone, Copy, Debug)]
pub struct Rational {
    num: i128,
    den: i128,
}

impl View for Rational {
    type V = Frac;

    closed spec fn view(&self) -> Frac {
        Frac { num: self.num as int, den: self.den as int }
    }
}

/// The value of an optional `Rational`.
pub open spec fn opt_view(r: Option<Rational>) -> Option<Frac> {
    match r {
        Some(v) => Some(v@),
        None => None,
    }
}

/// An absent value, or a well-formed one.
pub open spec fn opt_wf(r: Option<Rational>) -> bool {
    r is Some ==> r->0.wf()
}

/// `gcd` divides both of its arguments, and is positive where `b` is.
pub proof fn lemma_gcd_divides(a: nat, b: nat)
    requires
        b > 0,
    ensures
        gcd(a, b) > 0,
        a % gcd(a, b) == 0,
        b % gcd(a, b) == 0,
    decreases b,
{
    let r = a % b;
    lemma_fundamental_div_mod(a as int, b as int);
    if r == 0 {
        assert(gcd(b, 0) == b);
        lemma_fundamental_div_mod_converse(b as int, b as int, 1, 0);
    } else {
        lemma_gcd_divides(b, r);
        let g = gcd(b, r);
        lemma_fundamental_div_mod(b as int, g as int);
        lemma_fundamental_div_mod(r as int, g as int);
        let k = (a / b) * (b / g) + r / g;
        assert(a == g * k) by (nonlinear_arith)
            requires
                a == b * (a / b) + r,
                b == g * (b / g) + 0,
                r == g * (r / g) + 0,
                k == (a / b) * (b / g) + r / g,
        ;
        lemma_fundamental_div_mod_converse(a as int, g as int, k as int, 0);
    }
}

/// A fraction with a positive denominator keeps its value, and a positive
/// denominator, in lowest terms.
pub proof fn lemma_normalize(f: Frac)
    requires
        f.den > 0,
    ensures
        normalize(f).den > 0,
        same_value(normalize(f), f),
        abs(normalize(f).num) <= abs(f.num),
        normalize(f).den <= f.den,
{
    let g = gcd(abs(f.num), abs(f.den));
    lemma_gcd_divides(abs(f.num), abs(f.den));
    lemma_fundamental_div_mod(f.num, g as int);
    lemma_fundamental_div_mod(f.den, g as int);
    if f.num < 0 {
        lemma_fundamental_div_mod(-f.num, g as int);
        let k = (-f.num) / (g as int);
        assert(f.num == (-k) * g + 0) by (nonlinear_arith)
            requires
                -f.num == g * k + 0,
        ;
        lemma_fundamental_div_mod_converse(f.num, g as int, -k, 0);
    }
    let n = f.num / (g as int);
    let d = f.den / (g as int);
    assert(n * f.den == f.num * d && abs(n) <= abs(f.num) && 0 < d <= f.den) by (nonlinear_arith)
        requires
            g > 0,
            f.den > 0,
            f.num == g * n,
            f.den == g * d,
    ;
}

/// `a * b` when it lies in range.
pub fn mul_in_range(a: i128, b: i128) -> (r: Option<i128>)
    ensures
        r == (if in_range(a * b) {
            Some((a * b) as i128)
        } else {
            None
        }),
{
    match a.checked_mul(b) {
        Some(v) => if v == i128::MIN {
            None
        } else {
            Some(v)
        },
        None => None,
    }
}

/// `a + b` when it lies in range.
fn add_in_range(a: i128, b: i128) -> (r: Option<i128>)
    ensures
        r == (if in_range(a + b) {
            Some((a + b) as i128)
        } else {
            None
        }),
{
    match a.checked_add(b) {
        Some(v) => if v == i128::MIN {
            None
        } else {
            Some(v)
        },
        None => None,
    }
}

/// `a - b` when it lies in range.
fn sub_in_range(a: i128, b: i128) -> (r: Option<i128>)
    ensures
        r == (if in_range(a - b) {
            Some((a - b) as i128)
        } else {
            None
        }),
{
    match a.checked_sub(b) {
        Some(v) => if v == i128::MIN {
            None
        } else {
            Some(v)
        },
        None => None,
    }
}

fn gcd_exec(a: i128, b: i128) -> (g: i128)
    requires
        a >= 0,
        b >= 0,
    ensures
        g == gcd(a as nat, b as nat),
{
    let mut x = a;
    let mut y = b;
    while y != 0
        invariant
            x >= 0,
            y >= 0,
            gcd(x as nat, y as nat) == gcd(a as nat, b as nat),
        decreases y,
    {
        let t = x % y;
        x = y;
        y = t;
    }
    x
}

impl Rational {
    /// The denominator is positive and both parts lie in range.
    pub open spec fn wf(&self) -> bool {
        &&& self@.den > 0
        &&& in_range(self@.num)
        &&& in_range(self@.den)
    }

    /// The fraction `num / den` in lowest terms.
    fn reduced(num: i128, den: i128) -> (r: Rational)
        requires
            den > 0,
            in_range(num as int),
        ensures
            r.wf(),
            r@ == normalize(Frac { num: num as int, den: den as int }),
    {
        let ghost f = Frac { num: num as int, den: den as int };
        let a: i128 = if num < 0 {
            -num
        } else {
            num
        };
        let g = gcd_exec(a, den);
        proof {
            lemma_normalize(f);
            lemma_gcd_divides(a as nat, den as nat);
            lemma_fundamental_div_mod(a as int, g as int);
            if num < 0 {
                let k = a as int / g as int;
                assert(num == (-k) * g + 0) by (nonlinear_arith)
                    requires
                        a == g * k + 0,
                        num == -a,
                ;
                lemma_fundamental_div_mod_converse(num as int, g as int, -k, 0);
            }
        }
        let q = a / g;
        let n: i128 = if num < 0 {
            -q
        } else {
            q
        };
        Rational { num: n, den: den / g }
    }

    /// The fraction `num / den`, with the sign moved to the numerator. Fails
    /// with `Encoding` on a zero denominator or where a part is out of range.
    pub fn new(num: i128, den: i128) -> (r: Result<Rational, RegressionError>)
        ensures
            r is Ok <==> den != 0 && in_range(num as int) && in_range(den as int),
            r is Ok ==> r->Ok_0.wf() && r->Ok_0@ == (if den > 0 {
                Frac { num: num as int, den: den as int }
            } else {
                Frac { num: -num, den: -den }
            }),
            r is Err ==> r->Err_0 == RegressionError::Encoding,
    {
        if den == 0 || num == i128::MIN || den == i128::MIN {
            Err(RegressionError::Encoding)
        } else if den > 0 {
            Ok(Rational { num, den })
        } else {
            Ok(Rational { num: -num, den: -den })
        }
    }

    /// The integer `n` as the fraction `n / 1`.
    pub fn from_integer(n: i64) -> (r: Rational)
        ensures
            r.wf(),
            r@ == frac_of_int(n as int),
    {
        Rational { num: n as i128, den: 1 }
    }

    pub fn numerator(&self) -> (r: i128)
        ensures
            r == self@.num,
    {
        self.num
    }

    pub fn denominator(&self) -> (r: i128)
        ensures
            r == self@.den,
    {
        self.den
    }

    /// The sum in lowest terms, unless a product or the sum overflows.
    pub fn add(&self, o: &Rational) -> (r: Option<Rational>)
        requires
            self.wf(),
            o.wf(),
        ensures
            opt_view(r) == checked_add(Some(self@), Some(o@)),
            opt_wf(r),
    {
        let a = match mul_in_range(self.num, o.den) {
            Some(v) => v,
            None => return None,
        };
        let b = match mul_in_range(o.num, self.den) {
            Some(v) => v,
            None => return None,
        };
        let n = match add_in_range(a, b) {
            Some(v) => v,
            None => return None,
        };
        let d = match mul_in_range(self.den, o.den) {
            Some(v) => v,
            None => return None,
        };
        proof {
            lemma_mul_strictly_positive(self.den as int, o.den as int);
        }
        Some(Rational::reduced(n, d))
    }

    /// The difference in lowest terms, unless a product or the difference
    /// overflows.
    pub fn sub(&self, o: &Rational) -> (r: Option<Rational>)
        requires
            self.wf(),
            o.wf(),
        ensures
            opt_view(r) == checked_sub(Some(self@), Some(o@)),
            opt_wf(r),
    {
        let a = match mul_in_range(self.num, o.den) {
            Some(v) => v,
            None => return None,
        };
        let b = match mul_in_range(o.num, self.den) {
            Some(v) => v,
            None => return None,
        };
        let n = match sub_in_range(a, b) {
            Some(v) => v,
            None => return None,
        };
        let d = match mul_in_range(self.den, o.den) {
            Some(v) => v,
            None => return None,
        };
        proof {
            lemma_mul_strictly_positive(self.den as int, o.den as int);
        }
        Some(Rational::reduced(n, d))
    }

    /// The product in lowest terms, unless it overflows.
    pub fn mul(&self, o: &Rational) -> (r: Option<Rational>)
        requires
            self.wf(),
            o.wf(),
        ensures
            opt_view(r) == checked_mul(Some(self@), Some(o@)),
            opt_wf(r),
    {
        let n = match mul_in_range(self.num, o.num) {
            Some(v) => v,
            None => return None,
        };
        let d = match mul_in_range(self.den, o.den) {
            Some(v) => v,
            None => return None,
        };
        proof {
            lemma_mul_strictly_positive(self.den as int, o.den as int);
        }
        Some(Rational::reduced(n, d))
    }

    /// The quotient in lowest terms, unless the divisor is zero or the result
    /// overflows.
    pub fn div(&self, o: &Rational) -> (r: Option<Rational>)
        requires
            self.wf(),
            o.wf(),
        ensures
            opt_view(r) == checked_div(Some(self@), Some(o@)),
            opt_wf(r),
    {
        if o.num == 0 {
            return None;
        }
        let n = match mul_in_range(self.num, o.den) {
            Some(v) => v,
            None => return None,
        };
        let d = match mul_in_range(self.den, o.num) {
            Some(v) => v,
            None => return None,
        };
        if o.num < 0 {
            assert((self.den as int) * (o.num as int) < 0) by (nonlinear_arith)
                requires
                    self.den > 0,
                    o.num < 0,
            ;
            Some(Rational::reduced(-n, -d))
        } else {
            proof {
                lemma_mul_strictly_positive(self.den as int, o.num as int);
            }
            Some(Rational::reduced(n, d))
        }
    }

    /// Whether the two fractions stand for the same number, unless the cross
    /// products overflow.
    pub fn same_value_as(&self, o: &Rational) -> (r: Option<bool>)
        requires
            self.wf(),
            o.wf(),
        ensures
            r is Some <==> in_range(self@.num * o@.den) && in_range(o@.num * self@.den),
            r is Some ==> (r->0 <==> same_value(self@, o@)),
    {
        let a = match mul_in_range(self.num, o.den) {
            Some(v) => v,
            None => return None,
        };
        let b = match mul_in_range(o.num, self.den) {
            Some(v) => v,
            None => return None,
        };
        Some(a == b)
    }
}

/// The sum of two optional values: absent if either is absent.
pub fn opt_add(a: Option<Rational>, b: Option<Rational>) -> (r: Option<Rational>)
    requires
        opt_wf(a),
        opt_wf(b),
    ensures
        opt_view(r) == checked_add(opt_view(a), opt_view(b)),
        opt_wf(r),
{
    match (a, b) {
        (Some(x), Some(y)) => x.add(&y),
        _ => None,
    }
}

/// The difference of two optional values: absent if either is absent.
pub fn opt_sub(a: Option<Rational>, b: Option<Rational>) -> (r: Option<Rational>)
    requires
        opt_wf(a),
        opt_wf(b),
    ensures
        opt_view(r) == checked_sub(opt_view(a), opt_view(b)),
        opt_wf(r),
{
    match (a, b) {
        (Some(x), Some(y)) => x.sub(&y),
        _ => None,
    }
}

/// The product of two optional values: absent if either is absent.
pub fn opt_mul(a: Option<Rational>, b: Option<Rational>) -> (r: Option<Rational>)
    requires
        opt_wf(a),
        opt_wf(b),
    ensures
        opt_view(r) == checked_mul(opt_view(a), opt_view(b)),
        opt_wf(r),
{
    match (a, b) {
        (Some(x), Some(y)) => x.mul(&y),
        _ => None,
    }
}

} // verus!
