//! Exact rational numbers in lowest terms.  The arithmetic is done by `num`'s
//! `BigRational`; the library holds each value as a sign, a numerator and a
//! positive denominator.
use crate::natural::Natural;
use num::bigint::Sign;
use num::{BigInt, BigRational};
use vstd::arithmetic::div_mod::{
    lemma_fundamental_div_mod, lemma_fundamental_div_mod_converse, lemma_mod_multiples_basic,
};
use vstd::prelude::*;

verus! {

/// Greatest common divisor (Euclid).
pub open spec fn gcd(a: nat, b: nat) -> nat
    decreases b,
{
    if b == 0 {
        a
    } else {
        gcd(b, a % b)
    }
}

/// Absolute value.
pub open spec fn abs(x: int) -> nat {
    if x < 0 {
        (-x) as nat
    } else {
        x as nat
    }
}

/// The lowest-terms form of the fraction `n / d` (for `d != 0`): the
/// numerator carries the sign and the denominator is positive.
pub open spec fn canonical(n: int, d: int) -> (int, int) {
    let g = gcd(abs(n), abs(d));
    let q = (abs(n) / g) as int;
    (if (n < 0) != (d < 0) {
        -q
    } else {
        q
    }, (abs(d) / g) as int)
}

/// Whether a pair (numerator, denominator) is in lowest terms.
pub open spec fn is_canonical(v: (int, int)) -> bool {
    v.1 > 0 && gcd(abs(v.0), v.1 as nat) == 1
}

/// Sum of two fractions, in lowest terms.
pub open spec fn rat_add(a: (int, int), b: (int, int)) -> (int, int) {
    canonical(a.0 * b.1 + b.0 * a.1, a.1 * b.1)
}

/// Difference of two fractions, in lowest terms.
pub open spec fn rat_sub(a: (int, int), b: (int, int)) -> (int, int) {
    canonical(a.0 * b.1 - b.0 * a.1, a.1 * b.1)
}

/// Product of two fractions, in lowest terms.
pub open spec fn rat_mul(a: (int, int), b: (int, int)) -> (int, int) {
    canonical(a.0 * b.0, a.1 * b.1)
}

/// Quotient of two fractions (`b` non-zero), in lowest terms.
pub open spec fn rat_div(a: (int, int), b: (int, int)) -> (int, int) {
    canonical(a.0 * b.1, a.1 * b.0)
}

/// Negation of a fraction.
pub open spec fn rat_neg(a: (int, int)) -> (int, int) {
    (-a.0, a.1)
}

/// The gcd of two numbers, not both zero, is positive.
pub(crate) proof fn lemma_gcd_positive(a: nat, b: nat)
    requires
        a > 0 || b > 0,
    ensures
        gcd(a, b) > 0,
    decreases b,
{
    if b > 0 {
        lemma_gcd_positive(b, a % b);
    }
}

/// `k * g` is a multiple of `g`.
proof fn lemma_multiple_mod(k: int, g: int)
    requires
        g > 0,
    ensures
        (g * k) % g == 0,
{
    assert(g * k == k * g) by (nonlinear_arith);
    lemma_mod_multiples_basic(k, g);
}

/// The gcd divides both numbers.
proof fn lemma_gcd_divides(a: nat, b: nat)
    requires
        a > 0 || b > 0,
    ensures
        gcd(a, b) > 0,
        a % gcd(a, b) == 0,
        b % gcd(a, b) == 0,
    decreases b,
{
    lemma_gcd_positive(a, b);
    let g = gcd(a, b);
    if b == 0 {
        lemma_multiple_mod(1, a as int);
        lemma_multiple_mod(0, a as int);
    } else {
        let r = a % b;
        lemma_gcd_divides(b, r);
        lemma_fundamental_div_mod(a as int, b as int);
        lemma_fundamental_div_mod(b as int, g as int);
        lemma_fundamental_div_mod(r as int, g as int);
        let q = a / b;
        let bg = b / g;
        let rg = r / g;
        assert(a == g * (bg * q + rg)) by (nonlinear_arith)
            requires
                a == b * q + r,
                b == g * bg,
                r == g * rg,
        ;
        lemma_multiple_mod((bg * q + rg) as int, g as int);
    }
}

/// A common divisor of two numbers divides their gcd.
proof fn lemma_common_divisor_divides_gcd(a: nat, b: nat, d: nat)
    requires
        d > 0,
        a % d == 0,
        b % d == 0,
    ensures
        gcd(a, b) % d == 0,
    decreases b,
{
    if b > 0 {
        let r = a % b;
        let q = a / b;
        lemma_fundamental_div_mod(a as int, b as int);
        lemma_fundamental_div_mod(a as int, d as int);
        lemma_fundamental_div_mod(b as int, d as int);
        let ad = a / d;
        let bd = b / d;
        assert(r == d * (ad - bd * q)) by (nonlinear_arith)
            requires
                a == b * q + r,
                a == d * ad,
                b == d * bd,
        ;
        lemma_multiple_mod(ad - bd * q, d as int);
        lemma_common_divisor_divides_gcd(b, r, d);
    }
}

/// Scaling both operands scales the remainder.
proof fn lemma_mod_scale(a: nat, b: nat, k: nat)
    requires
        k > 0,
        b > 0,
    ensures
        (k * a) % (k * b) == k * (a % b),
{
    lemma_fundamental_div_mod(a as int, b as int);
    let q = a / b;
    let r = a % b;
    assert(k * a == q * (k * b) + k * r) by (nonlinear_arith)
        requires
            a == b * q + r,
    ;
    assert(0 <= k * r < k * b) by (nonlinear_arith)
        requires
            0 <= r < b,
            k > 0,
    ;
    lemma_fundamental_div_mod_converse((k * a) as int, (k * b) as int, q as int, (k * r) as int);
}

/// The gcd of multiples of `k` is `k` times the gcd.
proof fn lemma_gcd_scale(a: nat, b: nat, k: nat)
    requires
        k > 0,
    ensures
        gcd(k * a, k * b) == k * gcd(a, b),
    decreases b,
{
    if b == 0 {
        assert(k * b == 0);
    } else {
        assert(k * b > 0) by (nonlinear_arith)
            requires
                k > 0,
                b > 0,
        ;
        lemma_mod_scale(a, b, k);
        lemma_gcd_scale(b, a % b, k);
    }
}

/// A positive multiple of `d` is at least `d`.
proof fn lemma_divisor_at_most(d: nat, m: nat)
    requires
        d > 0,
        m > 0,
        m % d == 0,
    ensures
        d <= m,
{
    lemma_fundamental_div_mod(m as int, d as int);
    let q = m / d;
    assert(d <= m) by (nonlinear_arith)
        requires
            m == d * q,
            m > 0,
            d > 0,
    ;
}

/// `canonical(n, d)` is in lowest terms and has the value `n / d`.
pub proof fn lemma_canonical(n: int, d: int)
    requires
        d != 0,
    ensures
        is_canonical(canonical(n, d)),
        canonical(n, d).0 * d == n * canonical(n, d).1,
{
    let a = abs(n);
    let b = abs(d);
    lemma_gcd_divides(a, b);
    let g = gcd(a, b);
    lemma_fundamental_div_mod(a as int, g as int);
    lemma_fundamental_div_mod(b as int, g as int);
    let a1 = a / g;
    let b1 = b / g;
    assert(a == g * a1 && b == g * b1);
    assert(b1 > 0) by (nonlinear_arith)
        requires
            b == g * b1,
            b > 0,
            g > 0,
    ;
    lemma_gcd_scale(a1, b1, g);
    assert(gcd(a1, b1) == 1) by (nonlinear_arith)
        requires
            g * gcd(a1, b1) == g,
            g > 0,
    ;
    let c = canonical(n, d);
    assert(c.1 == b1);
    assert(abs(c.0) == a1);
    assert(c.0 * d == n * c.1) by (nonlinear_arith)
        requires
            c.0 == (if (n < 0) != (d < 0) {
                -a1
            } else {
                a1 as int
            }),
            c.1 == b1,
            a == (if n < 0 {
                -n
            } else {
                n
            }),
            b == (if d < 0 {
                -d
            } else {
                d
            }),
            a == g * a1,
            b == g * b1,
    ;
}

/// Two fractions in lowest terms with the same value are the same fraction.
pub proof fn lemma_canonical_unique(x: (int, int), y: (int, int))
    requires
        is_canonical(x),
        is_canonical(y),
        x.0 * y.1 == y.0 * x.1,
    ensures
        x == y,
{
    let (n1, d1) = x;
    let (n2, d2) = y;
    let a1 = abs(n1);
    let a2 = abs(n2);
    let e1 = d1 as nat;
    let e2 = d2 as nat;
    if n1 < 0 {
        assert(n2 < 0) by (nonlinear_arith)
            requires
                n1 * d2 == n2 * d1,
                n1 < 0,
                d1 > 0,
                d2 > 0,
        ;
        assert(a1 * e2 == a2 * e1) by (nonlinear_arith)
            requires
                a1 == -n1,
                a2 == -n2,
                e1 == d1,
                e2 == d2,
                n1 * d2 == n2 * d1,
        ;
    } else {
        assert(n2 >= 0) by (nonlinear_arith)
            requires
                n1 * d2 == n2 * d1,
                n1 >= 0,
                d1 > 0,
                d2 > 0,
        ;
        assert(a1 * e2 == a2 * e1);
    }
    // e1 divides a1 * e2 (= a2 * e1) and e1 * e2, hence e2 * gcd(a1, e1) = e2.
    lemma_multiple_mod(a2 as int, e1 as int);
    assert((e2 * a1) % e1 == 0) by {
        assert(e2 * a1 == e1 * a2) by (nonlinear_arith)
            requires
                a1 * e2 == a2 * e1,
        ;
    }
    lemma_multiple_mod(e2 as int, e1 as int);
    assert((e2 * e1) % e1 == 0) by {
        assert(e2 * e1 == e1 * e2) by (nonlinear_arith);
    }
    lemma_common_divisor_divides_gcd(e2 * a1, e2 * e1, e1);
    lemma_gcd_scale(a1, e1, e2);
    assert(e2 % e1 == 0) by {
        assert(e2 * gcd(a1, e1) == e2);
    }
    lemma_divisor_at_most(e1, e2);
    // and symmetrically
    lemma_multiple_mod(a1 as int, e2 as int);
    assert((e1 * a2) % e2 == 0) by {
        assert(e1 * a2 == e2 * a1) by (nonlinear_arith)
            requires
                a1 * e2 == a2 * e1,
        ;
    }
    lemma_multiple_mod(e1 as int, e2 as int);
    lemma_common_divisor_divides_gcd(e1 * a2, e1 * e2, e2);
    lemma_gcd_scale(a2, e2, e1);
    assert(e1 % e2 == 0) by {
        assert(e1 * gcd(a2, e2) == e1);
    }
    lemma_divisor_at_most(e2, e1);
    assert(d1 == d2);
    assert(n1 == n2) by (nonlinear_arith)
        requires
            n1 * d2 == n2 * d1,
            d1 == d2,
            d1 > 0,
    ;
}

/// The lowest-terms form of any fraction with the value of `x` is `x`.
pub proof fn lemma_canonical_of_value(n: int, d: int, x: (int, int))
    requires
        d != 0,
        is_canonical(x),
        n * x.1 == x.0 * d,
    ensures
        canonical(n, d) == x,
{
    lemma_canonical(n, d);
    let c = canonical(n, d);
    assert(c.0 * x.1 == x.0 * c.1) by (nonlinear_arith)
        requires
            c.0 * d == n * c.1,
            n * x.1 == x.0 * d,
            d != 0,
    ;
    lemma_canonical_unique(c, x);
}

/// Adding `b` and then subtracting it gives back `a`: the arithmetic is exact.
pub proof fn lemma_add_then_subtract(a: (int, int), b: (int, int))
    requires
        is_canonical(a),
        is_canonical(b),
    ensures
        rat_sub(rat_add(a, b), b) == a,
{
    let n = a.0 * b.1 + b.0 * a.1;
    let d = a.1 * b.1;
    assert(d > 0) by (nonlinear_arith)
        requires
            a.1 > 0,
            b.1 > 0,
            d == a.1 * b.1,
    ;
    lemma_canonical(n, d);
    let c = rat_add(a, b);
    let n2 = c.0 * b.1 - b.0 * c.1;
    let d2 = c.1 * b.1;
    assert(d2 != 0) by (nonlinear_arith)
        requires
            c.1 > 0,
            b.1 > 0,
            d2 == c.1 * b.1,
    ;
    let p = c.0 * b.1 * a.1;
    let q = b.0 * c.1 * a.1;
    let t = a.0 * b.1 * c.1;
    assert(n2 * a.1 == p - q) by (nonlinear_arith)
        requires
            n2 == c.0 * b.1 - b.0 * c.1,
            p == c.0 * b.1 * a.1,
            q == b.0 * c.1 * a.1,
    ;
    assert(p == c.0 * d) by (nonlinear_arith)
        requires
            p == c.0 * b.1 * a.1,
            d == a.1 * b.1,
    ;
    assert(n * c.1 == t + q) by (nonlinear_arith)
        requires
            n == a.0 * b.1 + b.0 * a.1,
            t == a.0 * b.1 * c.1,
            q == b.0 * c.1 * a.1,
    ;
    assert(a.0 * d2 == t) by (nonlinear_arith)
        requires
            d2 == c.1 * b.1,
            t == a.0 * b.1 * c.1,
    ;
    lemma_canonical_of_value(n2, d2, a);
}

/// Multiplying by a non-zero `b` and then dividing by it gives back `a`.
pub proof fn lemma_multiply_then_divide(a: (int, int), b: (int, int))
    requires
        is_canonical(a),
        is_canonical(b),
        b.0 != 0,
    ensures
        rat_div(rat_mul(a, b), b) == a,
{
    let n = a.0 * b.0;
    let d = a.1 * b.1;
    assert(d > 0) by (nonlinear_arith)
        requires
            a.1 > 0,
            b.1 > 0,
            d == a.1 * b.1,
    ;
    lemma_canonical(n, d);
    let c = rat_mul(a, b);
    let n2 = c.0 * b.1;
    let d2 = c.1 * b.0;
    assert(d2 != 0) by (nonlinear_arith)
        requires
            c.1 > 0,
            b.0 != 0,
            d2 == c.1 * b.0,
    ;
    assert(n2 * a.1 == c.0 * d) by (nonlinear_arith)
        requires
            d == a.1 * b.1,
            n2 == c.0 * b.1,
    ;
    assert(a.0 * d2 == n * c.1) by (nonlinear_arith)
        requires
            n == a.0 * b.0,
            d2 == c.1 * b.0,
    ;
    lemma_canonical_of_value(n2, d2, a);
}

/// Subtracting `b` and then adding it gives back `a`.
pub proof fn lemma_subtract_then_add(a: (int, int), b: (int, int))
    requires
        is_canonical(a),
        is_canonical(b),
    ensures
        rat_add(rat_sub(a, b), b) == a,
{
    let n = a.0 * b.1 - b.0 * a.1;
    let d = a.1 * b.1;
    assert(d > 0) by (nonlinear_arith)
        requires
            a.1 > 0,
            b.1 > 0,
            d == a.1 * b.1,
    ;
    lemma_canonical(n, d);
    let c = rat_sub(a, b);
    let n2 = c.0 * b.1 + b.0 * c.1;
    let d2 = c.1 * b.1;
    assert(d2 != 0) by (nonlinear_arith)
        requires
            c.1 > 0,
            b.1 > 0,
            d2 == c.1 * b.1,
    ;
    let p = c.0 * b.1 * a.1;
    let q = b.0 * c.1 * a.1;
    let t = a.0 * b.1 * c.1;
    assert(n2 * a.1 == p + q) by (nonlinear_arith)
        requires
            n2 == c.0 * b.1 + b.0 * c.1,
            p == c.0 * b.1 * a.1,
            q == b.0 * c.1 * a.1,
    ;
    assert(p == c.0 * d) by (nonlinear_arith)
        requires
            p == c.0 * b.1 * a.1,
            d == a.1 * b.1,
    ;
    assert(n * c.1 == t - q) by (nonlinear_arith)
        requires
            n == a.0 * b.1 - b.0 * a.1,
            t == a.0 * b.1 * c.1,
            q == b.0 * c.1 * a.1,
    ;
    assert(a.0 * d2 == t) by (nonlinear_arith)
        requires
            d2 == c.1 * b.1,
            t == a.0 * b.1 * c.1,
    ;
    lemma_canonical_of_value(n2, d2, a);
}

/// Dividing by a non-zero `b` and then multiplying by it gives back `a`.
pub proof fn lemma_divide_then_multiply(a: (int, int), b: (int, int))
    requires
        is_canonical(a),
        is_canonical(b),
        b.0 != 0,
    ensures
        rat_mul(rat_div(a, b), b) == a,
{
    let n = a.0 * b.1;
    let d = a.1 * b.0;
    assert(d != 0) by (nonlinear_arith)
        requires
            a.1 > 0,
            b.0 != 0,
            d == a.1 * b.0,
    ;
    lemma_canonical(n, d);
    let c = rat_div(a, b);
    let n2 = c.0 * b.0;
    let d2 = c.1 * b.1;
    assert(d2 != 0) by (nonlinear_arith)
        requires
            c.1 > 0,
            b.1 > 0,
            d2 == c.1 * b.1,
    ;
    assert(n2 * a.1 == c.0 * d) by (nonlinear_arith)
        requires
            d == a.1 * b.0,
            n2 == c.0 * b.0,
    ;
    assert(a.0 * d2 == n * c.1) by (nonlinear_arith)
        requires
            n == a.0 * b.1,
            d2 == c.1 * b.1,
    ;
    lemma_canonical_of_value(n2, d2, a);
}

/// A rational number.
#[derive(Debug, PartialEq, Eq)]
pub struct Rational {
    pub(crate) negative: bool,
    pub(crate) numer: Natural,
    pub(crate) denom: Natural,
}

impl View for Rational {
    type V = (int, int);

    /// (numerator, denominator); the numerator carries the sign.
    closed spec fn view(&self) -> (int, int) {
        (if self.negative {
            -self.numer@
        } else {
            self.numer@ as int
        }, self.denom@ as int)
    }
}

impl Rational {
    /// The representation invariant: lowest terms, positive denominator,
    /// and no negative zero.
    pub closed spec fn wf(&self) -> bool {
        &&& self.numer.wf()
        &&& self.denom.wf()
        &&& self.negative ==> self.numer@ > 0
        &&& is_canonical(self@)
    }

    /// A well-formed rational's (numerator, denominator) is in lowest terms.
    pub proof fn lemma_view_is_canonical(&self)
        requires
            self.wf(),
        ensures
            is_canonical(self@),
    {
    }

    /// Zero.
    pub fn zero() -> (r: Rational)
        ensures
            r.wf(),
            r@ == (0int, 1int),
    {
        Rational::from_integer(0)
    }

    /// The integer `v`.
    pub fn from_integer(v: i64) -> (r: Rational)
        ensures
            r.wf(),
            r@ == (v as int, 1int),
    {
        let magnitude: u64 = if v < 0 {
            ((-(v + 1)) as u64) + 1
        } else {
            v as u64
        };
        let numer = Natural::from_u64(magnitude);
        let denom = Natural::from_u32(1);
        proof {
            let m = numer@;
            assert(m % 1 == 0);
            assert(gcd(m, 1) == gcd(1, 0));
            assert(gcd(1, 0) == 1);
        }
        Rational { negative: v < 0, numer, denom }
    }

    /// The fraction `numer / denom` in lowest terms.
    pub fn new(numer: i64, denom: i64) -> (r: Rational)
        requires
            denom != 0,
        ensures
            r.wf(),
            r@ == canonical(numer as int, denom as int),
    {
        let n = Rational::from_integer(numer);
        let d = Rational::from_integer(denom);
        proof {
            assert(n@.0 * d@.1 == numer as int && n@.1 * d@.0 == denom as int);
        }
        rational_div(&n, &d)
    }

    /// Whether the number is zero.
    pub fn is_zero(&self) -> (b: bool)
        requires
            self.wf(),
        ensures
            b == (self@.0 == 0),
    {
        self.numer.is_zero()
    }

    /// Whether the number is below zero.
    pub fn is_negative(&self) -> (b: bool)
        requires
            self.wf(),
        ensures
            b == (self@.0 < 0),
    {
        self.negative
    }

    /// The magnitude of the numerator.
    pub fn numer_abs(&self) -> (r: Natural)
        requires
            self.wf(),
        ensures
            r.wf(),
            r@ == abs(self@.0),
    {
        self.numer.clone()
    }

    /// The (positive) denominator.
    pub fn denominator(&self) -> (r: Natural)
        requires
            self.wf(),
        ensures
            r.wf(),
            r@ == self@.1,
            r@ > 0,
    {
        self.denom.clone()
    }
}

impl Clone for Rational {
    /// A copy of the number.
    fn clone(&self) -> (r: Rational)
        ensures
            r@ == self@,
            r.wf() == self.wf(),
    {
        Rational { negative: self.negative, numer: self.numer.clone(), denom: self.denom.clone() }
    }
}

/// Sum, computed by `num`'s `BigRational` addition.
#[verifier::external_body]
pub(crate) fn rational_add(a: &Rational, b: &Rational) -> (r: Rational)
    requires
        a.wf(),
        b.wf(),
    ensures
        r.wf(),
        r@ == rat_add(a@, b@),
{
    let x = BigRational::new_raw(
        BigInt::new(if a.negative { Sign::Minus } else { Sign::Plus }, a.numer.limbs.clone()),
        BigInt::new(Sign::Plus, a.denom.limbs.clone()),
    );
    let y = BigRational::new_raw(
        BigInt::new(if b.negative { Sign::Minus } else { Sign::Plus }, b.numer.limbs.clone()),
        BigInt::new(Sign::Plus, b.denom.limbs.clone()),
    );
    let z = x + y;
    let (s, n) = z.numer().to_u32_digits();
    let d = z.denom().to_u32_digits().1;
    Rational { negative: s == Sign::Minus, numer: Natural { limbs: n }, denom: Natural { limbs: d } }
}

/// Difference, computed by `num`'s `BigRational` subtraction.
#[verifier::external_body]
pub(crate) fn rational_sub(a: &Rational, b: &Rational) -> (r: Rational)
    requires
        a.wf(),
        b.wf(),
    ensures
        r.wf(),
        r@ == rat_sub(a@, b@),
{
    let x = BigRational::new_raw(
        BigInt::new(if a.negative { Sign::Minus } else { Sign::Plus }, a.numer.limbs.clone()),
        BigInt::new(Sign::Plus, a.denom.limbs.clone()),
    );
    let y = BigRational::new_raw(
        BigInt::new(if b.negative { Sign::Minus } else { Sign::Plus }, b.numer.limbs.clone()),
        BigInt::new(Sign::Plus, b.denom.limbs.clone()),
    );
    let z = x - y;
    let (s, n) = z.numer().to_u32_digits();
    let d = z.denom().to_u32_digits().1;
    Rational { negative: s == Sign::Minus, numer: Natural { limbs: n }, denom: Natural { limbs: d } }
}

/// Product, computed by `num`'s `BigRational` multiplication.
#[verifier::external_body]
pub(crate) fn rational_mul(a: &Rational, b: &Rational) -> (r: Rational)
    requires
        a.wf(),
        b.wf(),
    ensures
        r.wf(),
        r@ == rat_mul(a@, b@),
{
    let x = BigRational::new_raw(
        BigInt::new(if a.negative { Sign::Minus } else { Sign::Plus }, a.numer.limbs.clone()),
        BigInt::new(Sign::Plus, a.denom.limbs.clone()),
    );
    let y = BigRational::new_raw(
        BigInt::new(if b.negative { Sign::Minus } else { Sign::Plus }, b.numer.limbs.clone()),
        BigInt::new(Sign::Plus, b.denom.limbs.clone()),
    );
    let z = x * y;
    let (s, n) = z.numer().to_u32_digits();
    let d = z.denom().to_u32_digits().1;
    Rational { negative: s == Sign::Minus, numer: Natural { limbs: n }, denom: Natural { limbs: d } }
}

/// Quotient, computed by `num`'s `BigRational` division (which panics on a zero divisor).
#[verifier::external_body]
pub(crate) fn rational_div(a: &Rational, b: &Rational) -> (r: Rational)
    requires
        a.wf(),
        b.wf(),
        b@.0 != 0,
    ensures
        r.wf(),
        r@ == rat_div(a@, b@),
{
    let x = BigRational::new_raw(
        BigInt::new(if a.negative { Sign::Minus } else { Sign::Plus }, a.numer.limbs.clone()),
        BigInt::new(Sign::Plus, a.denom.limbs.clone()),
    );
    let y = BigRational::new_raw(
        BigInt::new(if b.negative { Sign::Minus } else { Sign::Plus }, b.numer.limbs.clone()),
        BigInt::new(Sign::Plus, b.denom.limbs.clone()),
    );
    let z = x / y;
    let (s, n) = z.numer().to_u32_digits();
    let d = z.denom().to_u32_digits().1;
    Rational { negative: s == Sign::Minus, numer: Natural { limbs: n }, denom: Natural { limbs: d } }
}

/// Negation, computed by `num`'s `BigRational` negation.
#[verifier::external_body]
pub(crate) fn rational_neg(a: &Rational) -> (r: Rational)
    requires
        a.wf(),
    ensures
        r.wf(),
        r@ == rat_neg(a@),
{
    let x = BigRational::new_raw(
        BigInt::new(if a.negative { Sign::Minus } else { Sign::Plus }, a.numer.limbs.clone()),
        BigInt::new(Sign::Plus, a.denom.limbs.clone()),
    );
    let z = -x;
    let (s, n) = z.numer().to_u32_digits();
    let d = z.denom().to_u32_digits().1;
    Rational { negative: s == Sign::Minus, numer: Natural { limbs: n }, denom: Natural { limbs: d } }
}

} // verus!
