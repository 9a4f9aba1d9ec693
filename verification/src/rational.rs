//! Exact rational scalars with a bounded representation.
//!
//! A `Scalar` is a fraction `n / d` of two `i128` values with `0 < d` and both
//! magnitudes at most `BOUND`. Every arithmetic result is reduced by the
//! greatest common divisor of its raw numerator and denominator; when even the
//! reduced fraction does not fit the bound, the checked operations return
//! `None` and leave it to the caller to report the failure. Comparisons never
//! fail: the bound is chosen so that the cross products fit in `i128`.

use vstd::arithmetic::div_mod::{
    lemma_add_mod_noop, lemma_div_by_self, lemma_div_of0, lemma_fundamental_div_mod,
    lemma_mod_self_0, lemma_mul_mod_noop_left,
};
use vstd::arithmetic::mul::lemma_mul_strictly_positive;
use vstd::math::abs;
use vstd::prelude::*;

verus! {

/// Largest magnitude admitted for a numerator or denominator: 2^62.
pub const BOUND: i128 = 0x4000_0000_0000_0000;

/// An exact rational number `n / d`.
///
/// Construct values through `from_int` or `from_ratio`; the arithmetic methods
/// keep the representation well formed (`wf`).
#[derive(Clone, Copy, Debug, PartialEq, Eq, Structural)]
pub struct Scalar {
    pub n: i128,
    pub d: i128,
}

/// Euclid's recursion; for `0 <= a` and `0 < b` this is the greatest common
/// divisor of `a` and `b`.
pub open spec fn gcd(a: int, b: int) -> int
    recommends
        0 <= a,
        0 <= b,
    decreases b,
{
    if b <= 0 {
        a
    } else {
        gcd(b, a % b)
    }
}

/// The two fractions `n1 / d1` and `n2 / d2` stand for the same rational
/// (assuming positive denominators).
pub open spec fn frac_eq(n1: int, d1: int, n2: int, d2: int) -> bool {
    n1 * d2 == n2 * d1
}

/// Numerator of `n / d` after dividing out `gcd(|n|, d)`.
pub open spec fn reduce_num(n: int, d: int) -> int {
    let g = gcd(abs(n) as int, d);
    if n >= 0 {
        abs(n) as int / g
    } else {
        -(abs(n) as int / g)
    }
}

/// Denominator of `n / d` after dividing out `gcd(|n|, d)`.
pub open spec fn reduce_den(n: int, d: int) -> int {
    d / gcd(abs(n) as int, d)
}

/// The reduced form of `n / d` fits the bounded representation.
pub open spec fn frac_fits(n: int, d: int) -> bool {
    -(BOUND as int) <= reduce_num(n, d) <= BOUND as int && reduce_den(n, d) <= BOUND as int
}

/// Reduction of a raw fraction to a `Scalar`, or `None` when even the reduced
/// fraction is out of bounds.
pub open spec fn spec_normalize(n: int, d: int) -> Option<Scalar>
    recommends
        0 < d,
{
    if frac_fits(n, d) {
        Some(Scalar { n: reduce_num(n, d) as i128, d: reduce_den(n, d) as i128 })
    } else {
        None
    }
}

pub open spec fn add_n(a: Scalar, b: Scalar) -> int {
    a.n * b.d + b.n * a.d
}

pub open spec fn add_d(a: Scalar, b: Scalar) -> int {
    a.d * b.d
}

pub open spec fn mul_n(a: Scalar, b: Scalar) -> int {
    a.n * b.n
}

pub open spec fn mul_d(a: Scalar, b: Scalar) -> int {
    a.d * b.d
}

pub open spec fn spec_neg(a: Scalar) -> Scalar {
    Scalar { n: (-a.n) as i128, d: a.d }
}

/// The reciprocal with the sign moved into the numerator.
pub open spec fn spec_recip(a: Scalar) -> Scalar
    recommends
        a.n != 0,
{
    if a.n > 0 {
        Scalar { n: a.d, d: a.n }
    } else {
        Scalar { n: (-a.d) as i128, d: (-a.n) as i128 }
    }
}

pub open spec fn spec_add(a: Scalar, b: Scalar) -> Option<Scalar> {
    spec_normalize(add_n(a, b), add_d(a, b))
}

pub open spec fn spec_sub(a: Scalar, b: Scalar) -> Option<Scalar> {
    spec_add(a, spec_neg(b))
}

pub open spec fn spec_mul(a: Scalar, b: Scalar) -> Option<Scalar> {
    spec_normalize(mul_n(a, b), mul_d(a, b))
}

pub open spec fn spec_div(a: Scalar, b: Scalar) -> Option<Scalar>
    recommends
        b.n != 0,
{
    spec_mul(a, spec_recip(b))
}

/// `a <= b` as rationals (assuming both are well formed).
pub open spec fn le_rat(a: Scalar, b: Scalar) -> bool {
    a.n * b.d <= b.n * a.d
}

/// `a == b` as rationals.
pub open spec fn eq_rat(a: Scalar, b: Scalar) -> bool {
    frac_eq(a.n as int, a.d as int, b.n as int, b.d as int)
}

pub open spec fn spec_min(a: Scalar, b: Scalar) -> Scalar {
    if le_rat(a, b) {
        a
    } else {
        b
    }
}

pub open spec fn spec_max(a: Scalar, b: Scalar) -> Scalar {
    if le_rat(b, a) {
        a
    } else {
        b
    }
}

/// Bound on a product from bounds on its factors.
pub proof fn lemma_mul_bound(x: int, y: int, bx: int, by: int)
    by (nonlinear_arith)
    requires
        -bx <= x <= bx,
        -by <= y <= by,
        0 <= bx,
        0 <= by,
    ensures
        -(bx * by) <= x * y <= bx * by,
{
}

/// For positive `b`, the Euclidean recursion yields a positive common divisor
/// of `a` and `b`.
pub proof fn lemma_gcd_props(a: int, b: int)
    requires
        0 <= a,
        0 < b,
    ensures
        0 < gcd(a, b),
        a % gcd(a, b) == 0,
        b % gcd(a, b) == 0,
    decreases b,
{
    let r = a % b;
    if r == 0 {
        assert(gcd(a, b) == gcd(b, 0));
        assert(gcd(b, 0) == b);
        lemma_mod_self_0(b);
    } else {
        lemma_gcd_props(b, r);
        let g = gcd(b, r);
        assert(gcd(a, b) == g);
        lemma_fundamental_div_mod(a, b);
        let q = a / b;
        assert((b * q) % g == 0) by {
            lemma_mul_mod_noop_left(b, q, g);
            assert((b % g) * q == 0);
            assert(0int % g == 0) by (nonlinear_arith)
                requires
                    0 < g,
            ;
        }
        assert(a % g == 0) by {
            lemma_add_mod_noop(b * q, r, g);
        }
    }
}

/// Dividing a positive multiple of `g` by `g` gives a positive quotient no
/// larger than the dividend, and the product with `g` restores the dividend.
pub proof fn lemma_div_exact(x: int, g: int)
    requires
        0 <= x,
        0 < g,
        x % g == 0,
    ensures
        0 <= x / g <= x,
        (x / g) * g == x,
        x > 0 ==> 0 < x / g,
{
    lemma_fundamental_div_mod(x, g);
    assert((x / g) * g == x) by (nonlinear_arith)
        requires
            x == g * (x / g) + x % g,
            x % g == 0,
    ;
    assert(0 <= x / g <= x && (x > 0 ==> 0 < x / g)) by (nonlinear_arith)
        requires
            (x / g) * g == x,
            0 <= x,
            0 < g,
    ;
}

/// The reduced form of a raw fraction has a positive denominator and stands
/// for the same rational; both parts shrink in magnitude.
pub proof fn lemma_reduce_value(n: int, d: int)
    requires
        0 < d,
    ensures
        0 < reduce_den(n, d) <= d,
        -(abs(n) as int) <= reduce_num(n, d) <= abs(n) as int,
        frac_eq(reduce_num(n, d), reduce_den(n, d), n, d),
{
    let m = abs(n) as int;
    let g = gcd(m, d);
    lemma_gcd_props(m, d);
    lemma_div_exact(m, g);
    lemma_div_exact(d, g);
    let mg = m / g;
    let dg = d / g;
    assert(mg * d == m * dg) by (nonlinear_arith)
        requires
            mg * g == m,
            dg * g == d,
    ;
    if n >= 0 {
        assert(reduce_num(n, d) * d == n * reduce_den(n, d));
    } else {
        assert(m == -n);
        assert((-mg) * d == n * dg) by (nonlinear_arith)
            requires
                mg * d == m * dg,
                m == -n,
        ;
    }
}

/// What a successful normalization yields: a well-formed scalar equal, as a
/// rational, to the raw fraction.
pub proof fn lemma_normalize_some(n: int, d: int)
    requires
        0 < d,
    ensures
        spec_normalize(n, d) matches Some(s) ==> s.wf() && frac_eq(
            s.n as int,
            s.d as int,
            n,
            d,
        ),
{
    lemma_reduce_value(n, d);
}

/// A checked subtraction yields a zero numerator exactly when the operands
/// stand for the same rational.
pub proof fn lemma_sub_zero_iff(a: Scalar, b: Scalar, s: Scalar)
    requires
        a.wf(),
        b.wf(),
        spec_sub(a, b) == Some(s),
    ensures
        s.n == 0 <==> eq_rat(a, b),
        0 < s.d,
{
    let nb = spec_neg(b);
    let raw_n = add_n(a, nb);
    let raw_d = add_d(a, nb);
    assert(raw_d > 0) by {
        lemma_mul_strictly_positive(a.d as int, b.d as int);
    }
    lemma_reduce_value(raw_n, raw_d);
    assert(raw_n == a.n * b.d - b.n * a.d) by (nonlinear_arith)
        requires
            raw_n == a.n * b.d + (-(b.n as int)) * a.d,
    ;
    assert(s.n == 0 <==> raw_n == 0) by (nonlinear_arith)
        requires
            frac_eq(s.n as int, s.d as int, raw_n, raw_d),
            raw_d > 0,
            s.d as int > 0,
    ;
}

/// A zero numerator reduces to the canonical zero and always fits.
pub proof fn lemma_normalize_zero(d: int)
    requires
        0 < d,
    ensures
        spec_normalize(0, d) == Some(Scalar { n: 0, d: 1 }),
{
    assert(0int % d == 0) by (nonlinear_arith)
        requires
            0 < d,
    ;
    assert(gcd(0, d) == gcd(d, 0));
    assert(gcd(d, 0) == d);
    lemma_div_of0(d);
    lemma_div_by_self(d);
    assert(abs(0) == 0nat);
}

/// What a successful checked addition is worth as a rational: the raw sum of
/// the two fractions.
pub proof fn lemma_add_value(a: Scalar, b: Scalar, s: Scalar)
    requires
        a.wf(),
        b.wf(),
        spec_add(a, b) == Some(s),
    ensures
        s.wf(),
        frac_eq(s.n as int, s.d as int, add_n(a, b), add_d(a, b)),
        0 < add_d(a, b),
{
    lemma_mul_strictly_positive(a.d as int, b.d as int);
    lemma_normalize_some(add_n(a, b), add_d(a, b));
}

/// What a successful checked multiplication is worth as a rational: the raw
/// product of the two fractions.
pub proof fn lemma_mul_value(a: Scalar, b: Scalar, s: Scalar)
    requires
        a.wf(),
        b.wf(),
        spec_mul(a, b) == Some(s),
    ensures
        s.wf(),
        frac_eq(s.n as int, s.d as int, mul_n(a, b), mul_d(a, b)),
        0 < mul_d(a, b),
{
    lemma_mul_strictly_positive(a.d as int, b.d as int);
    lemma_normalize_some(mul_n(a, b), mul_d(a, b));
}

/// What a successful checked division is worth as a rational: the quotient
/// `(a.n * b.d) / (a.d * b.n)` (sign carried by `b.n`).
pub proof fn lemma_div_value(a: Scalar, b: Scalar, s: Scalar)
    requires
        a.wf(),
        b.wf(),
        b.n != 0,
        spec_div(a, b) == Some(s),
    ensures
        s.wf(),
        s.n * (a.d * b.n) == (a.n * b.d) * s.d,
{
    let rb = spec_recip(b);
    lemma_mul_value(a, rb, s);
    assert(s.n * (a.d * b.n) == (a.n * b.d) * s.d) by (nonlinear_arith)
        requires
            frac_eq(s.n as int, s.d as int, a.n * rb.n, a.d * rb.d),
            b.n > 0 ==> rb.n == b.d && rb.d == b.n,
            b.n < 0 ==> rb.n == -(b.d as int) && rb.d == -(b.n as int),
            b.n != 0,
    ;
}

/// Multiplying by a zero scalar always succeeds and yields the canonical
/// zero.
pub proof fn lemma_mul_zero(a: Scalar, b: Scalar)
    requires
        a.wf(),
        b.wf(),
        a.n == 0 || b.n == 0,
    ensures
        spec_mul(a, b) == Some(Scalar { n: 0, d: 1 }),
{
    assert(a.n * b.n == 0) by (nonlinear_arith)
        requires
            a.n == 0 || b.n == 0,
    ;
    lemma_mul_strictly_positive(a.d as int, b.d as int);
    lemma_normalize_zero(mul_d(a, b));
}

/// Adding two zero-valued scalars always succeeds and yields the canonical
/// zero.
pub proof fn lemma_add_zero_zero(a: Scalar, b: Scalar)
    requires
        a.wf(),
        b.wf(),
        a.n == 0,
        b.n == 0,
    ensures
        spec_add(a, b) == Some(Scalar { n: 0, d: 1 }),
{
    assert(add_n(a, b) == 0) by (nonlinear_arith)
        requires
            a.n == 0,
            b.n == 0,
    ;
    lemma_mul_strictly_positive(a.d as int, b.d as int);
    lemma_normalize_zero(add_d(a, b));
}

/// Adding the canonical zero always succeeds and keeps the rational value.
pub proof fn lemma_add_canonical_zero(a: Scalar)
    requires
        a.wf(),
    ensures
        spec_add(a, Scalar { n: 0, d: 1 }) matches Some(s) && s.wf() && eq_rat(s, a),
{
    let z = Scalar { n: 0, d: 1 };
    assert(add_n(a, z) == a.n && add_d(a, z) == a.d);
    lemma_small_frac_fits(a.n as int, a.d as int);
    lemma_reduce_value(a.n as int, a.d as int);
}

/// A fraction already within the bound always fits after reduction.
pub proof fn lemma_small_frac_fits(n: int, d: int)
    requires
        0 < d <= BOUND as int,
        -(BOUND as int) <= n <= BOUND as int,
    ensures
        frac_fits(n, d),
{
    lemma_reduce_value(n, d);
}

impl Scalar {
    /// The representation invariant: positive bounded denominator, bounded
    /// numerator.
    pub open spec fn wf(self) -> bool {
        0 < self.d <= BOUND && -BOUND <= self.n <= BOUND
    }

    /// The rational is zero exactly when the numerator is zero.
    pub open spec fn is_zero_spec(self) -> bool {
        self.n == 0
    }

    pub fn zero() -> (r: Scalar)
        ensures
            r.n == 0,
            r.d == 1,
            r.wf(),
    {
        Scalar { n: 0, d: 1 }
    }

    /// The integer `v` as a scalar.
    pub fn from_int(v: i64) -> (r: Scalar)
        requires
            -BOUND <= v as i128 <= BOUND,
        ensures
            r.n == v as i128,
            r.d == 1,
            r.wf(),
    {
        Scalar { n: v as i128, d: 1 }
    }

    /// The fraction `n / d` as a scalar, reduced, with the sign moved to the
    /// numerator.
    pub fn from_ratio(n: i64, d: i64) -> (r: Scalar)
        requires
            d != 0,
            -BOUND <= n as i128 <= BOUND,
            -BOUND <= d as i128 <= BOUND,
        ensures
            r.wf(),
            frac_eq(r.n as int, r.d as int, n as int, d as int),
            ({
                let sn: int = if d < 0 {
                    -(n as int)
                } else {
                    n as int
                };
                let sd: int = if d < 0 {
                    -(d as int)
                } else {
                    d as int
                };
                spec_normalize(sn, sd) == Some(r)
            }),
    {
        let (sn, sd): (i128, i128) = if d < 0 {
            (-(n as i128), -(d as i128))
        } else {
            (n as i128, d as i128)
        };
        proof {
            lemma_small_frac_fits(sn as int, sd as int);
            lemma_normalize_some(sn as int, sd as int);
        }
        let r = normalize(sn, sd);
        let s = r.unwrap();
        proof {
            if d < 0 {
                assert(frac_eq(s.n as int, s.d as int, n as int, d as int)) by (nonlinear_arith)
                    requires
                        frac_eq(s.n as int, s.d as int, sn as int, sd as int),
                        sn == -(n as int),
                        sd == -(d as int),
                ;
            }
        }
        s
    }

    pub fn neg(self) -> (r: Scalar)
        requires
            self.wf(),
        ensures
            r == spec_neg(self),
            r.wf(),
    {
        Scalar { n: -self.n, d: self.d }
    }

    /// The reciprocal; total because the bound is symmetric in `n` and `d`.
    pub fn recip(self) -> (r: Scalar)
        requires
            self.wf(),
            self.n != 0,
        ensures
            r == spec_recip(self),
            r.wf(),
    {
        if self.n > 0 {
            Scalar { n: self.d, d: self.n }
        } else {
            Scalar { n: -self.d, d: -self.n }
        }
    }

    pub fn checked_add(self, other: Scalar) -> (r: Option<Scalar>)
        requires
            self.wf(),
            other.wf(),
        ensures
            r == spec_add(self, other),
            r matches Some(s) ==> s.wf(),
    {
        proof {
            lemma_mul_bound(self.n as int, other.d as int, BOUND as int, BOUND as int);
            lemma_mul_bound(other.n as int, self.d as int, BOUND as int, BOUND as int);
            lemma_mul_bound(self.d as int, other.d as int, BOUND as int, BOUND as int);
            lemma_mul_strictly_positive(self.d as int, other.d as int);
            lemma_normalize_some(add_n(self, other), add_d(self, other));
        }
        let t = self.n * other.d + other.n * self.d;
        let dd = self.d * other.d;
        normalize(t, dd)
    }

    pub fn checked_sub(self, other: Scalar) -> (r: Option<Scalar>)
        requires
            self.wf(),
            other.wf(),
        ensures
            r == spec_sub(self, other),
            r matches Some(s) ==> s.wf(),
    {
        self.checked_add(other.neg())
    }

    pub fn checked_mul(self, other: Scalar) -> (r: Option<Scalar>)
        requires
            self.wf(),
            other.wf(),
        ensures
            r == spec_mul(self, other),
            r matches Some(s) ==> s.wf(),
    {
        proof {
            lemma_mul_bound(self.n as int, other.n as int, BOUND as int, BOUND as int);
            lemma_mul_bound(self.d as int, other.d as int, BOUND as int, BOUND as int);
            lemma_mul_strictly_positive(self.d as int, other.d as int);
            lemma_normalize_some(mul_n(self, other), mul_d(self, other));
        }
        let t = self.n * other.n;
        let dd = self.d * other.d;
        normalize(t, dd)
    }

    pub fn checked_div(self, other: Scalar) -> (r: Option<Scalar>)
        requires
            self.wf(),
            other.wf(),
            other.n != 0,
        ensures
            r == spec_div(self, other),
            r matches Some(s) ==> s.wf(),
    {
        self.checked_mul(other.recip())
    }

    pub fn le(self, other: Scalar) -> (r: bool)
        requires
            self.wf(),
            other.wf(),
        ensures
            r == le_rat(self, other),
    {
        proof {
            lemma_mul_bound(self.n as int, other.d as int, BOUND as int, BOUND as int);
            lemma_mul_bound(other.n as int, self.d as int, BOUND as int, BOUND as int);
        }
        self.n * other.d <= other.n * self.d
    }

    /// Equality of the rationals the two scalars stand for.
    pub fn eq_val(self, other: Scalar) -> (r: bool)
        requires
            self.wf(),
            other.wf(),
        ensures
            r == eq_rat(self, other),
    {
        proof {
            lemma_mul_bound(self.n as int, other.d as int, BOUND as int, BOUND as int);
            lemma_mul_bound(other.n as int, self.d as int, BOUND as int, BOUND as int);
        }
        self.n * other.d == other.n * self.d
    }

    pub fn is_zero(self) -> (r: bool)
        requires
            self.wf(),
        ensures
            r == self.is_zero_spec(),
    {
        self.n == 0
    }

    pub fn min(self, other: Scalar) -> (r: Scalar)
        requires
            self.wf(),
            other.wf(),
        ensures
            r == spec_min(self, other),
            r.wf(),
    {
        if self.le(other) {
            self
        } else {
            other
        }
    }

    pub fn max(self, other: Scalar) -> (r: Scalar)
        requires
            self.wf(),
            other.wf(),
        ensures
            r == spec_max(self, other),
            r.wf(),
    {
        if other.le(self) {
            self
        } else {
            other
        }
    }
}

/// Euclid's algorithm on unsigned machine words.
fn gcd_u128(a: u128, b: u128) -> (g: u128)
    requires
        b > 0,
    ensures
        g as int == gcd(a as int, b as int),
        g > 0,
        (a as int) % (g as int) == 0,
        (b as int) % (g as int) == 0,
{
    proof {
        lemma_gcd_props(a as int, b as int);
    }
    let mut x = a;
    let mut y = b;
    while y != 0
        invariant
            gcd(x as int, y as int) == gcd(a as int, b as int),
        decreases y,
    {
        let r = x % y;
        proof {
            assert(gcd(x as int, y as int) == gcd(y as int, (x as int) % (y as int)));
        }
        x = y;
        y = r;
    }
    assert(gcd(x as int, 0) == x as int);
    x
}

/// Reduce a raw fraction (positive denominator) and box it as a `Scalar` if
/// the reduced parts fit the bound.
fn normalize(tn: i128, td: i128) -> (r: Option<Scalar>)
    requires
        -0x2000_0000_0000_0000_0000_0000_0000_0000 <= tn
            <= 0x2000_0000_0000_0000_0000_0000_0000_0000,
        0 < td <= 0x2000_0000_0000_0000_0000_0000_0000_0000,
    ensures
        r == spec_normalize(tn as int, td as int),
        r matches Some(s) ==> s.wf(),
{
    proof {
        lemma_reduce_value(tn as int, td as int);
    }
    let neg = tn < 0;
    let m: u128 = if neg {
        (-tn) as u128
    } else {
        tn as u128
    };
    let d: u128 = td as u128;
    let g = gcd_u128(m, d);
    proof {
        lemma_div_exact(m as int, g as int);
        lemma_div_exact(d as int, g as int);
    }
    let rn = m / g;
    let rd = d / g;
    if rn <= 0x4000_0000_0000_0000 && rd <= 0x4000_0000_0000_0000 {
        let num: i128 = if neg {
            -(rn as i128)
        } else {
            rn as i128
        };
        Some(Scalar { n: num, d: rd as i128 })
    } else {
        None
    }
}

} // verus!
