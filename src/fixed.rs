//! The fixed-point encoding: a single scaled integer, which adds, subtracts
//! and multiplies but does not divide.

use vstd::prelude::*;
use vstd::arithmetic::div_mod::{lemma_fundamental_div_mod, lemma_fundamental_div_mod_converse};

use crate::error::RegressionError;
use crate::rational::{in_range, mul_in_range, same_value, Frac, Rational};

verus! {

/// The fixed-point scale: a raw value `k` stands for `k / SCALE`.
pub const SCALE: i128 = 65536;

/// `a <= b` for fractions with positive denominators.
pub open spec fn frac_le(a: Frac, b: Frac) -> bool {
    a.num * b.den <= b.num * a.den
}

/// `a < b` for fractions with positive denominators.
pub open spec fn frac_lt(a: Frac, b: Frac) -> bool {
    a.num * b.den < b.num * a.den
}

/// The number that the raw value `raw` stands for.
pub open spec fn decoded(raw: int) -> Frac {
    Frac { num: raw, den: SCALE as int }
}

/// The raw value that encodes `q`: `q * SCALE` rounded down, absent when the
/// scaled numerator or the result leaves its range.
pub open spec fn encode_checked(q: Frac) -> Option<int> {
    if in_range(q.num * SCALE) && i64::MIN <= (q.num * SCALE) / q.den <= i64::MAX {
        Some((q.num * SCALE) / q.den)
    } else {
        None
    }
}

/// `n / den` rounded down.
fn floor_div(n: i128, den: i128) -> (r: i128)
    requires
        den > 0,
    ensures
        r == n as int / den as int,
{
    if n >= 0 {
        n / den
    } else {
        let m: i128 = -(n + 1);
        let k: i128 = m / den;
        proof {
            lemma_fundamental_div_mod(m as int, den as int);
            let rem = m as int % den as int;
            assert(n == (-k - 1) * den + (den - 1 - rem)) by (nonlinear_arith)
                requires
                    m == den * k + rem,
                    m == -(n + 1),
            ;
            lemma_fundamental_div_mod_converse(n as int, den as int, -k - 1, den - 1 - rem);
        }
        -k - 1
    }
}

/// A number in the encoding that has no division: a single scaled 64-bit
/// integer, `raw / SCALE`.
#[derive(Clone, Copy, Debug)]
pub struct FixedPoint {
    raw: i64,
}

impl View for FixedPoint {
    type V = int;

    closed spec fn view(&self) -> int {
        self.raw as int
    }
}

impl FixedPoint {
    pub fn from_raw(raw: i64) -> (r: FixedPoint)
        ensures
            r@ == raw,
    {
        FixedPoint { raw }
    }

    pub fn raw(&self) -> (r: i64)
        ensures
            r == self@,
    {
        self.raw
    }

    /// The fixed-point value just below or at `q`. Fails with `Encoding`
    /// when `q` is out of the encoding's range.
    pub fn encode(q: &Rational) -> (r: Result<FixedPoint, RegressionError>)
        requires
            q.wf(),
        ensures
            r is Ok <==> encode_checked(q@) is Some,
            r is Ok ==> encode_checked(q@) == Some(r->Ok_0@),
            r is Err ==> r->Err_0 == RegressionError::Encoding,
    {
        let n = match mul_in_range(q.numerator(), SCALE) {
            Some(v) => v,
            None => return Err(RegressionError::Encoding),
        };
        let f = floor_div(n, q.denominator());
        if f < i64::MIN as i128 || f > i64::MAX as i128 {
            return Err(RegressionError::Encoding);
        }
        Ok(FixedPoint { raw: f as i64 })
    }

    /// The exact sum, unless it leaves the 64-bit range.
    pub fn add(&self, o: &FixedPoint) -> (r: Option<FixedPoint>)
        ensures
            r is Some <==> i64::MIN <= self@ + o@ <= i64::MAX,
            r is Some ==> r->0@ == self@ + o@,
    {
        match self.raw.checked_add(o.raw) {
            Some(v) => Some(FixedPoint { raw: v }),
            None => None,
        }
    }

    /// The exact difference, unless it leaves the 64-bit range.
    pub fn sub(&self, o: &FixedPoint) -> (r: Option<FixedPoint>)
        ensures
            r is Some <==> i64::MIN <= self@ - o@ <= i64::MAX,
            r is Some ==> r->0@ == self@ - o@,
    {
        match self.raw.checked_sub(o.raw) {
            Some(v) => Some(FixedPoint { raw: v }),
            None => None,
        }
    }

    /// The product rounded down to the scale, unless it leaves the 64-bit
    /// range.
    pub fn mul(&self, o: &FixedPoint) -> (r: Option<FixedPoint>)
        ensures
            r is Some <==> i64::MIN <= (self@ * o@) / (SCALE as int) <= i64::MAX,
            r is Some ==> r->0@ == (self@ * o@) / (SCALE as int),
    {
        let a = self.raw as i128;
        let b = o.raw as i128;
        assert(-0x4000_0000_0000_0000_0000_0000_0000_0000 <= a * b <= 0x4000_0000_0000_0000_0000_0000_0000_0000)
            by (nonlinear_arith)
            requires
                -0x8000_0000_0000_0000 <= a <= 0x7fff_ffff_ffff_ffff,
                -0x8000_0000_0000_0000 <= b <= 0x7fff_ffff_ffff_ffff,
        ;
        let p = a * b;
        let f = floor_div(p, SCALE);
        if f < i64::MIN as i128 || f > i64::MAX as i128 {
            return None;
        }
        Some(FixedPoint { raw: f as i64 })
    }

    /// The number that this value stands for, as a rational.
    pub fn decode(&self) -> (r: Rational)
        ensures
            r.wf(),
            r@ == decoded(self@),
    {
        match Rational::new(self.raw as i128, SCALE) {
            Ok(q) => q,
            Err(_) => {
                assert(false);
                Rational::from_integer(0)
            },
        }
    }
}

/// Encoding a decoded value gives back the same raw value, for every raw
/// value.
pub proof fn lemma_encode_decode_identity(raw: i64)
    ensures
        encode_checked(decoded(raw as int)) == Some(raw as int),
{
    assert((raw as int * SCALE) / (SCALE as int) == raw) by (nonlinear_arith);
}

/// Decoding an encoded value gives the number itself, rounded down to the
/// scale: `decoded(raw) <= q < decoded(raw + 1)`. Where `q` lies on the
/// scale, the round trip is exact.
pub proof fn lemma_decode_encode_round_trip(q: Frac)
    requires
        q.den > 0,
        encode_checked(q) is Some,
    ensures
        frac_le(decoded(encode_checked(q)->0), q),
        frac_lt(q, decoded(encode_checked(q)->0 + 1)),
        (q.num * SCALE) % q.den == 0 ==> same_value(decoded(encode_checked(q)->0), q),
{
    let raw = encode_checked(q)->0;
    let s = q.num * SCALE;
    lemma_fundamental_div_mod(s, q.den);
    assert(raw * q.den <= s < (raw + 1) * q.den) by (nonlinear_arith)
        requires
            raw == s / q.den,
            s == q.den * (s / q.den) + s % q.den,
            0 <= s % q.den < q.den,
    ;
    if s % q.den == 0 {
        assert(raw * q.den == s) by (nonlinear_arith)
            requires
                raw == s / q.den,
                s == q.den * (s / q.den) + s % q.den,
                s % q.den == 0,
        ;
    }
}

} // verus!
