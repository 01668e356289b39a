//! Exact fractions over `i64`, with num's `Ratio<i64>` doing the arithmetic.
use vstd::arithmetic::div_mod::{
    lemma_div_multiples_vanish, lemma_fundamental_div_mod, lemma_fundamental_div_mod_converse,
    lemma_mod_multiples_basic,
};
use vstd::prelude::*;

verus! {

/// Greatest common divisor, by Euclid's algorithm.
pub open spec fn gcd(a: nat, b: nat) -> nat
    decreases b,
{
    if b == 0 {
        a
    } else {
        gcd(b, (a % b) as nat)
    }
}

pub open spec fn abs(x: int) -> nat {
    if x < 0 {
        (-x) as nat
    } else {
        x as nat
    }
}

/// The fraction `n / d` in lowest terms, with a positive denominator.
pub open spec fn frac(n: int, d: int) -> (int, int)
    recommends
        d != 0,
{
    let g = gcd(abs(n), abs(d)) as int;
    if d < 0 {
        ((-n) / g, (-d) / g)
    } else {
        (n / g, d / g)
    }
}

pub proof fn lemma_gcd_pos(a: nat, b: nat)
    requires
        b > 0,
    ensures
        gcd(a, b) > 0,
    decreases b,
{
    let r = (a % b) as nat;
    if r > 0 {
        lemma_gcd_pos(b, r);
    } else {
        assert(gcd(b, r) == b);
    }
}

proof fn lemma_divides_sum(a: int, b: int, q: int, r: int, g: int)
    requires
        g > 0,
        b % g == 0,
        r % g == 0,
        a == q * b + r,
    ensures
        a % g == 0,
{
    lemma_fundamental_div_mod(b, g);
    lemma_fundamental_div_mod(r, g);
    let k = q * (b / g) + r / g;
    assert(a == k * g) by (nonlinear_arith)
        requires
            a == q * b + r,
            b == g * (b / g),
            r == g * (r / g),
            k == q * (b / g) + r / g,
    ;
    lemma_mod_multiples_basic(k, g);
}

/// The gcd divides both arguments.
pub proof fn lemma_gcd_divides(a: nat, b: nat)
    requires
        a > 0 || b > 0,
    ensures
        gcd(a, b) > 0,
        a % gcd(a, b) == 0,
        b % gcd(a, b) == 0,
    decreases b,
{
    if b == 0 {
        lemma_mod_multiples_basic(1, a as int);
        lemma_mod_multiples_basic(0, a as int);
    } else {
        let r = (a % b) as nat;
        lemma_gcd_divides(b, r);
        let g = gcd(a, b) as int;
        lemma_fundamental_div_mod(a as int, b as int);
        let q = a as int / b as int;
        assert(a == q * b + r) by (nonlinear_arith)
            requires
                a == b * q + r,
        ;
        lemma_divides_sum(a as int, b as int, q, r as int, g);
    }
}

/// Scaling both arguments scales the gcd.
pub proof fn lemma_gcd_scale(a: nat, b: nat, k: nat)
    requires
        k > 0,
    ensures
        gcd((k * a) as nat, (k * b) as nat) == k * gcd(a, b),
    decreases b,
{
    if b == 0 {
        assert(k * b == 0) by (nonlinear_arith)
            requires
                b == 0,
        ;
    } else {
        let r = (a % b) as nat;
        assert(k * b > 0) by (nonlinear_arith)
            requires
                k > 0,
                b > 0,
        ;
        lemma_fundamental_div_mod(a as int, b as int);
        let q = a as int / b as int;
        assert((k * a) == q * (k * b) + k * r) by (nonlinear_arith)
            requires
                a == b * q + r,
        ;
        assert(0 <= k * r < k * b) by (nonlinear_arith)
            requires
                0 <= r < b,
                k > 0,
        ;
        lemma_fundamental_div_mod_converse((k * a) as int, (k * b) as int, q, (k * r) as int);
        lemma_gcd_scale(b, r, k);
    }
}


proof fn lemma_divisible_signed(n: int, g: int)
    requires
        g > 0,
        (abs(n) as int) % g == 0,
    ensures
        n % g == 0,
        n == g * (n / g),
{
    lemma_fundamental_div_mod(abs(n) as int, g);
    let m = abs(n) as int / g;
    if n < 0 {
        assert(n == (-m) * g) by (nonlinear_arith)
            requires
                -n == g * m,
        ;
        lemma_mod_multiples_basic(-m, g);
    } else {
        assert(n == m * g) by (nonlinear_arith)
            requires
                n == g * m,
        ;
        lemma_mod_multiples_basic(m, g);
    }
    lemma_fundamental_div_mod(n, g);
}

/// What `frac` gives: a positive denominator, no common factor, the same value,
/// and terms no larger than the ones given.
pub proof fn lemma_frac(n: int, d: int)
    requires
        d != 0,
    ensures
        ({
            let f = frac(n, d);
            let g = gcd(abs(n), abs(d)) as int;
            &&& g > 0
            &&& f.1 > 0
            &&& gcd(abs(f.0), f.1 as nat) == 1
            &&& n * f.1 == f.0 * d
            &&& abs(f.0) <= abs(n)
            &&& f.1 <= abs(d)
            &&& (if d > 0 { n } else { -n }) == g * f.0
            &&& abs(d) == g * f.1
        }),
{
    let g = gcd(abs(n), abs(d)) as int;
    lemma_gcd_divides(abs(n), abs(d));
    let sn = if d > 0 { n } else { -n };
    let sd = if d > 0 { d } else { -d };
    assert(abs(sn) == abs(n));
    lemma_divisible_signed(sn, g);
    lemma_divisible_signed(sd, g);
    let f = frac(n, d);
    assert(f == (sn / g, sd / g));
    let f0 = f.0;
    let f1 = f.1;
    assert(f1 > 0) by (nonlinear_arith)
        requires
            sd == g * f1,
            sd > 0,
            g > 0,
    ;
    assert(abs(f0) <= abs(sn) && g * abs(f0) == abs(sn)) by (nonlinear_arith)
        requires
            sn == g * f0,
            g > 0,
    ;
    lemma_gcd_scale(abs(f0), f1 as nat, g as nat);
    assert(gcd(abs(f0), f1 as nat) == 1) by (nonlinear_arith)
        requires
            g * gcd(abs(f0), f1 as nat) == g,
            g > 0,
    ;
    assert(n * f1 == f0 * d) by (nonlinear_arith)
        requires
            sn == g * f0,
            sd == g * f1,
            (sn == n && sd == d) || (sn == -n && sd == -d),
    ;
    assert(f1 <= sd) by (nonlinear_arith)
        requires
            sd == g * f1,
            g > 0,
            f1 > 0,
    ;
}

/// A fraction already in lowest terms is left as it is.
pub proof fn lemma_frac_lowest(n: int, d: int)
    requires
        d > 0,
        gcd(abs(n), d as nat) == 1,
    ensures
        frac(n, d) == (n, d),
{
    assert(abs(d) == d);
    lemma_div_multiples_vanish(n, 1);
    lemma_div_multiples_vanish(d, 1);
}

/// Scaling numerator and denominator by the same positive factor does not
/// change the fraction.
pub proof fn lemma_frac_scale(n: int, d: int, k: int)
    requires
        d != 0,
        k > 0,
    ensures
        frac(k * n, k * d) == frac(n, d),
{
    lemma_frac(n, d);
    let g = gcd(abs(n), abs(d)) as int;
    let f = frac(n, d);
    assert(abs(k * n) == k * abs(n) && abs(k * d) == k * abs(d) && k * d != 0
        && (k * d > 0 <==> d > 0)) by (nonlinear_arith)
        requires
            k > 0,
            d != 0,
    ;
    lemma_gcd_scale(abs(n), abs(d), k as nat);
    let kg = k * g;
    assert(kg > 0) by (nonlinear_arith)
        requires
            kg == k * g,
            k > 0,
            g > 0,
    ;
    let sn = if d > 0 { n } else { -n };
    let sd = if d > 0 { d } else { -d };
    assert(k * sn == kg * f.0 && k * sd == kg * f.1) by (nonlinear_arith)
        requires
            sn == g * f.0,
            sd == g * f.1,
            kg == k * g,
    ;
    lemma_div_multiples_vanish(f.0, kg);
    lemma_div_multiples_vanish(f.1, kg);
    assert(kg * f.0 == f.0 * kg && kg * f.1 == f.1 * kg) by (nonlinear_arith);
    assert(-(k * n) == k * (-n) && -(k * d) == k * (-d)) by (nonlinear_arith);
}


/// The integer `n` as a fraction.
pub open spec fn q_int(n: int) -> (int, int) {
    (n, 1)
}

pub open spec fn q_add(a: (int, int), b: (int, int)) -> (int, int) {
    frac(a.0 * b.1 + b.0 * a.1, a.1 * b.1)
}

pub open spec fn q_sub(a: (int, int), b: (int, int)) -> (int, int) {
    frac(a.0 * b.1 - b.0 * a.1, a.1 * b.1)
}

pub open spec fn q_mul(a: (int, int), b: (int, int)) -> (int, int) {
    frac(a.0 * b.0, a.1 * b.1)
}

pub open spec fn q_div(a: (int, int), b: (int, int)) -> (int, int) {
    frac(a.0 * b.1, a.1 * b.0)
}

/// The remainder of `a` by `b`, for `a >= 0` and `b > 0`: `a - b * floor(a / b)`.
pub open spec fn q_rem(a: (int, int), b: (int, int)) -> (int, int) {
    frac((a.0 * b.1) % (b.0 * a.1), a.1 * b.1)
}

pub open spec fn q_lt(a: (int, int), b: (int, int)) -> bool {
    a.0 * b.1 < b.0 * a.1
}

/// The largest integer not above `a`.
pub open spec fn q_floor(a: (int, int)) -> (int, int) {
    (a.0 / a.1, 1)
}

/// No common factor, and a positive denominator.
pub open spec fn lowest(q: (int, int)) -> bool {
    q.1 > 0 && gcd(abs(q.0), q.1 as nat) == 1
}

/// A fraction whose terms an `i64` holds, with room to negate.
pub open spec fn fits(q: (int, int)) -> bool {
    -i64::MAX <= q.0 <= i64::MAX && 0 < q.1 <= i64::MAX
}

/// Cross products of `a` and `b`, and their sum, stay within `i64`: the bound under
/// which sums, differences and remainders are formed without overflow.
pub open spec fn cross_fits(a: (int, int), b: (int, int)) -> bool {
    abs(a.0) * b.1 + abs(b.0) * a.1 <= i64::MAX && a.1 * b.1 <= i64::MAX
}

/// An exact fraction of two `i64`.
#[derive(Clone, Copy, Debug, PartialEq, Eq, Structural)]
pub struct Rational {
    pub numer: i64,
    pub denom: i64,
}

impl View for Rational {
    type V = (int, int);

    open spec fn view(&self) -> (int, int) {
        (self.numer as int, self.denom as int)
    }
}

/// Relies on num's `Ratio::new`: the fraction in lowest terms, denominator positive.
#[verifier::external_body]
fn num_new(numer: i64, denom: i64) -> (r: Rational)
    requires
        denom != 0,
        numer != i64::MIN,
        denom != i64::MIN,
    ensures
        r@ == frac(numer as int, denom as int),
{
    let (numer, denom) = num::rational::Ratio::new(numer, denom).into_raw();
    Rational { numer, denom }
}

/// Relies on num's `Ratio + Ratio`: the exact sum in lowest terms. Its terms are
/// formed over the lcm of the denominators, within the cross products.
#[verifier::external_body]
fn num_add(a: &Rational, b: &Rational) -> (r: Rational)
    requires
        a.wf(),
        b.wf(),
        cross_fits(a@, b@),
    ensures
        r@ == q_add(a@, b@),
{
    let x = num::rational::Ratio::new_raw(a.numer, a.denom);
    let y = num::rational::Ratio::new_raw(b.numer, b.denom);
    let (numer, denom) = (x + y).into_raw();
    Rational { numer, denom }
}

/// Relies on num's `Ratio - Ratio`: the exact difference in lowest terms.
#[verifier::external_body]
fn num_sub(a: &Rational, b: &Rational) -> (r: Rational)
    requires
        a.wf(),
        b.wf(),
        cross_fits(a@, b@),
    ensures
        r@ == q_sub(a@, b@),
{
    let x = num::rational::Ratio::new_raw(a.numer, a.denom);
    let y = num::rational::Ratio::new_raw(b.numer, b.denom);
    let (numer, denom) = (x - y).into_raw();
    Rational { numer, denom }
}

/// Relies on num's `Ratio * Ratio`: it cancels across before multiplying, so for
/// operands in lowest terms the products it forms are the terms of the result.
#[verifier::external_body]
fn num_mul(a: &Rational, b: &Rational) -> (r: Rational)
    requires
        a.wf(),
        b.wf(),
        fits(q_mul(a@, b@)),
    ensures
        r@ == q_mul(a@, b@),
{
    let x = num::rational::Ratio::new_raw(a.numer, a.denom);
    let y = num::rational::Ratio::new_raw(b.numer, b.denom);
    let (numer, denom) = (x * y).into_raw();
    Rational { numer, denom }
}

/// Relies on num's `Ratio / Ratio`: as for the product, the terms it forms are the
/// result's; it panics on a zero divisor.
#[verifier::external_body]
fn num_div(a: &Rational, b: &Rational) -> (r: Rational)
    requires
        a.wf(),
        b.wf(),
        b.numer != 0,
        fits(q_div(a@, b@)),
    ensures
        r@ == q_div(a@, b@),
{
    let x = num::rational::Ratio::new_raw(a.numer, a.denom);
    let y = num::rational::Ratio::new_raw(b.numer, b.denom);
    let (numer, denom) = (x / y).into_raw();
    Rational { numer, denom }
}

/// Relies on num's `Ratio % Ratio`: the remainder of the terms over the lcm of the
/// denominators, truncated, which for these signs is `a - b * floor(a / b)`.
#[verifier::external_body]
fn num_rem(a: &Rational, b: &Rational) -> (r: Rational)
    requires
        a.wf(),
        b.wf(),
        a.numer >= 0,
        b.numer > 0,
        cross_fits(a@, b@),
    ensures
        r@ == q_rem(a@, b@),
{
    let x = num::rational::Ratio::new_raw(a.numer, a.denom);
    let y = num::rational::Ratio::new_raw(b.numer, b.denom);
    let (numer, denom) = (x % y).into_raw();
    Rational { numer, denom }
}

/// Relies on num's `Ratio` ordering, which compares the values exactly.
#[verifier::external_body]
fn num_lt(a: &Rational, b: &Rational) -> (r: bool)
    requires
        a.wf(),
        b.wf(),
    ensures
        r == q_lt(a@, b@),
{
    num::rational::Ratio::new_raw(a.numer, a.denom) < num::rational::Ratio::new_raw(b.numer, b.denom)
}

/// Relies on num's `Ratio::floor`, which for a value not below zero divides the terms.
#[verifier::external_body]
fn num_floor(a: &Rational) -> (r: Rational)
    requires
        a.wf(),
        a.numer >= 0,
    ensures
        r@ == q_floor(a@),
{
    let (numer, denom) = num::rational::Ratio::new_raw(a.numer, a.denom).floor().into_raw();
    Rational { numer, denom }
}

/// Relies on num's `CheckedMul for Ratio`: `None` only where a product of the
/// cancelled terms, that is a term of the result, leaves `i64`.
#[verifier::external_body]
fn num_checked_mul(a: &Rational, b: &Rational) -> (r: Option<Rational>)
    requires
        a.wf(),
        b.wf(),
    ensures
        fits(q_mul(a@, b@)) ==> r.is_some(),
        r matches Some(v) ==> v@ == q_mul(a@, b@),
{
    let x = num::rational::Ratio::new_raw(a.numer, a.denom);
    let y = num::rational::Ratio::new_raw(b.numer, b.denom);
    match num::traits::CheckedMul::checked_mul(&x, &y) {
        Some(v) => {
            let (numer, denom) = v.into_raw();
            Some(Rational { numer, denom })
        },
        None => None,
    }
}

/// Relies on num's `CheckedDiv for Ratio`: `None` on a zero divisor, or where a
/// term of the result leaves `i64`.
#[verifier::external_body]
fn num_checked_div(a: &Rational, b: &Rational) -> (r: Option<Rational>)
    requires
        a.wf(),
        b.wf(),
    ensures
        b.numer != 0 && fits(q_div(a@, b@)) ==> r.is_some(),
        r matches Some(v) ==> b.numer != 0 && v@ == q_div(a@, b@),
{
    let x = num::rational::Ratio::new_raw(a.numer, a.denom);
    let y = num::rational::Ratio::new_raw(b.numer, b.denom);
    match num::traits::CheckedDiv::checked_div(&x, &y) {
        Some(v) => {
            let (numer, denom) = v.into_raw();
            Some(Rational { numer, denom })
        },
        None => None,
    }
}

/// Relies on num's `CheckedAdd for Ratio`: it forms the terms over the lcm of the
/// denominators, within the cross products, and reports overflow as `None`.
#[verifier::external_body]
fn num_checked_add(a: &Rational, b: &Rational) -> (r: Option<Rational>)
    requires
        a.wf(),
        b.wf(),
    ensures
        cross_fits(a@, b@) ==> r.is_some(),
        r matches Some(v) ==> v@ == q_add(a@, b@),
{
    let x = num::rational::Ratio::new_raw(a.numer, a.denom);
    let y = num::rational::Ratio::new_raw(b.numer, b.denom);
    match num::traits::CheckedAdd::checked_add(&x, &y) {
        Some(v) => {
            let (numer, denom) = v.into_raw();
            Some(Rational { numer, denom })
        },
        None => None,
    }
}

impl Rational {
    /// In lowest terms, with a positive denominator, and a numerator that can be negated.
    pub open spec fn wf(self) -> bool {
        &&& lowest(self@)
        &&& self.numer > i64::MIN
    }

    /// `numer / denom` in lowest terms.
    pub fn new(numer: i64, denom: i64) -> (r: Rational)
        requires
            denom != 0,
            numer != i64::MIN,
            denom != i64::MIN,
        ensures
            r.wf(),
            r@ == frac(numer as int, denom as int),
    {
        proof {
            lemma_frac(numer as int, denom as int);
        }
        num_new(numer, denom)
    }

    pub fn from_integer(n: i64) -> (r: Rational)
        requires
            n != i64::MIN,
        ensures
            r.wf(),
            r@ == q_int(n as int),
    {
        proof {
            assert(gcd(1, 0) == 1);
            assert(gcd(abs(n as int), 1) == gcd(1, 0));
        }
        Rational { numer: n, denom: 1 }
    }

    pub fn add(&self, other: &Rational) -> (r: Rational)
        requires
            self.wf(),
            other.wf(),
            cross_fits(self@, other@),
        ensures
            r.wf(),
            r@ == q_add(self@, other@),
    {
        proof {
            lemma_cross_fits(self@, other@);
        }
        num_add(self, other)
    }

    pub fn sub(&self, other: &Rational) -> (r: Rational)
        requires
            self.wf(),
            other.wf(),
            cross_fits(self@, other@),
        ensures
            r.wf(),
            r@ == q_sub(self@, other@),
    {
        proof {
            lemma_cross_fits(self@, other@);
        }
        num_sub(self, other)
    }

    pub fn mul(&self, other: &Rational) -> (r: Rational)
        requires
            self.wf(),
            other.wf(),
            fits(q_mul(self@, other@)),
        ensures
            r.wf(),
            r@ == q_mul(self@, other@),
    {
        proof {
            lemma_product_denominator(self@.1, other@.1);
            lemma_frac(self@.0 * other@.0, self@.1 * other@.1);
        }
        num_mul(self, other)
    }

    pub fn div(&self, other: &Rational) -> (r: Rational)
        requires
            self.wf(),
            other.wf(),
            other.numer != 0,
            fits(q_div(self@, other@)),
        ensures
            r.wf(),
            r@ == q_div(self@, other@),
    {
        proof {
            lemma_product_nonzero(self@.1, other@.0);
            lemma_frac(self@.0 * other@.1, self@.1 * other@.0);
        }
        num_div(self, other)
    }

    /// The remainder `self - other * floor(self / other)`.
    pub fn rem(&self, other: &Rational) -> (r: Rational)
        requires
            self.wf(),
            other.wf(),
            self.numer >= 0,
            other.numer > 0,
            cross_fits(self@, other@),
        ensures
            r.wf(),
            r.numer >= 0,
            r@ == q_rem(self@, other@),
    {
        proof {
            lemma_cross_fits(self@, other@);
        }
        num_rem(self, other)
    }

    pub fn lt(&self, other: &Rational) -> (r: bool)
        requires
            self.wf(),
            other.wf(),
        ensures
            r == q_lt(self@, other@),
    {
        num_lt(self, other)
    }

    pub fn floor(&self) -> (r: Rational)
        requires
            self.wf(),
            self.numer >= 0,
        ensures
            r.wf(),
            r@ == q_floor(self@),
    {
        let r = num_floor(self);
        proof {
            assert(gcd(1, 0) == 1);
            assert(gcd(abs(r@.0), 1) == gcd(1, 0));
            assert(r@.0 >= 0) by (nonlinear_arith)
                requires
                    r@.0 == self@.0 / self@.1,
                    self@.0 >= 0,
                    self@.1 > 0,
            ;
        }
        r
    }

    /// The product, or `None` where it does not fit `i64`.
    pub fn checked_mul(&self, other: &Rational) -> (r: Option<Rational>)
        requires
            self.wf(),
            other.wf(),
        ensures
            r.is_some() <==> fits(q_mul(self@, other@)),
            r matches Some(v) ==> v.wf() && v@ == q_mul(self@, other@),
    {
        proof {
            lemma_product_denominator(self@.1, other@.1);
            lemma_frac(self@.0 * other@.0, self@.1 * other@.1);
        }
        match num_checked_mul(self, other) {
            Some(v) => {
                if v.numer == i64::MIN {
                    None
                } else {
                    Some(v)
                }
            },
            None => None,
        }
    }

    /// The quotient, or `None` where `other` is zero or the quotient does not fit `i64`.
    pub fn checked_div(&self, other: &Rational) -> (r: Option<Rational>)
        requires
            self.wf(),
            other.wf(),
        ensures
            r.is_some() <==> other.numer != 0 && fits(q_div(self@, other@)),
            r matches Some(v) ==> v.wf() && v@ == q_div(self@, other@),
    {
        if other.numer == 0 {
            return None;
        }
        proof {
            lemma_product_nonzero(self@.1, other@.0);
            lemma_frac(self@.0 * other@.1, self@.1 * other@.0);
        }
        match num_checked_div(self, other) {
            Some(v) => {
                if v.numer == i64::MIN {
                    None
                } else {
                    Some(v)
                }
            },
            None => None,
        }
    }

    /// The sum, or `None` where num cannot form it within `i64`; it is formed
    /// whenever `cross_fits` holds.
    pub fn checked_add(&self, other: &Rational) -> (r: Option<Rational>)
        requires
            self.wf(),
            other.wf(),
        ensures
            cross_fits(self@, other@) ==> r.is_some(),
            r matches Some(v) ==> v.wf() && v@ == q_add(self@, other@),
    {
        proof {
            lemma_product_denominator(self@.1, other@.1);
            lemma_frac(self@.0 * other@.1 + other@.0 * self@.1, self@.1 * other@.1);
            if cross_fits(self@, other@) {
                lemma_cross_fits(self@, other@);
            }
        }
        match num_checked_add(self, other) {
            Some(v) => {
                if v.numer == i64::MIN {
                    None
                } else {
                    Some(v)
                }
            },
            None => None,
        }
    }
}

pub proof fn lemma_product_denominator(a: int, b: int)
    requires
        a > 0,
        b > 0,
    ensures
        a * b > 0,
{
    assert(a * b > 0) by (nonlinear_arith)
        requires
            a > 0,
            b > 0,
    ;
}

proof fn lemma_product_nonzero(a: int, b: int)
    requires
        a != 0,
        b != 0,
    ensures
        a * b != 0,
{
    assert(a * b != 0) by (nonlinear_arith)
        requires
            a != 0,
            b != 0,
    ;
}

/// Under `cross_fits`, sums, differences and remainders fit `i64`.
pub proof fn lemma_cross_fits(a: (int, int), b: (int, int))
    requires
        a.1 > 0,
        b.1 > 0,
        cross_fits(a, b),
    ensures
        fits(q_add(a, b)),
        fits(q_sub(a, b)),
        lowest(q_add(a, b)),
        lowest(q_sub(a, b)),
        a.0 >= 0 && b.0 > 0 ==> fits(q_rem(a, b)) && lowest(q_rem(a, b)) && q_rem(a, b).0 >= 0,
{
    let d = a.1 * b.1;
    assert(d > 0) by (nonlinear_arith)
        requires
            a.1 > 0,
            b.1 > 0,
            d == a.1 * b.1,
    ;
    let s = a.0 * b.1 + b.0 * a.1;
    let t = a.0 * b.1 - b.0 * a.1;
    assert(abs(s) <= abs(a.0) * b.1 + abs(b.0) * a.1 && abs(t) <= abs(a.0) * b.1 + abs(b.0)
        * a.1) by (nonlinear_arith)
        requires
            a.1 > 0,
            b.1 > 0,
            s == a.0 * b.1 + b.0 * a.1,
            t == a.0 * b.1 - b.0 * a.1,
    ;
    lemma_frac(s, d);
    lemma_frac(t, d);
    if a.0 >= 0 && b.0 > 0 {
        let m = b.0 * a.1;
        assert(m > 0 && a.0 * b.1 >= 0 && m <= abs(b.0) * a.1) by (nonlinear_arith)
            requires
                a.0 >= 0,
                b.0 > 0,
                a.1 > 0,
                b.1 > 0,
                m == b.0 * a.1,
        ;
        let r = (a.0 * b.1) % m;
        lemma_frac(r, d);
        let f = frac(r, d);
        assert(f.0 >= 0) by (nonlinear_arith)
            requires
                r * f.1 == f.0 * d,
                r >= 0,
                f.1 > 0,
                d > 0,
        ;
    }
}


/// Relies on num-integer's `gcd` for `i64`: the greatest common divisor of the
/// magnitudes, never negative.
#[verifier::external_body]
fn num_gcd(a: i64, b: i64) -> (r: i64)
    requires
        a != i64::MIN,
        b != i64::MIN,
    ensures
        r == gcd(abs(a as int), abs(b as int)),
{
    num::integer::gcd(a, b)
}

impl Rational {
    /// Whether the fraction is in lowest terms with a positive denominator.
    pub fn is_wf(&self) -> (r: bool)
        ensures
            r == self.wf(),
    {
        if self.denom <= 0 || self.numer == i64::MIN {
            return false;
        }
        num_gcd(self.numer, self.denom) == 1
    }
}

/// Dividing by a positive fraction and multiplying back gives the value again:
/// exact arithmetic loses nothing on the way.
pub proof fn lemma_div_mul_cancel(x: (int, int), t: (int, int))
    requires
        lowest(x),
        lowest(t),
        t.0 > 0,
    ensures
        q_mul(q_div(x, t), t) == x,
{
    let n = x.0 * t.1;
    let d = x.1 * t.0;
    lemma_product_denominator(x.1, t.0);
    lemma_frac(n, d);
    let u = frac(n, d);
    let g = gcd(abs(n), abs(d)) as int;
    assert(n == g * u.0 && d == g * u.1);
    lemma_product_denominator(u.1, t.1);
    lemma_frac_scale(u.0 * t.0, u.1 * t.1, g);
    assert(g * (u.0 * t.0) == (t.0 * t.1) * x.0 && g * (u.1 * t.1) == (t.0 * t.1) * x.1)
        by (nonlinear_arith)
        requires
            x.0 * t.1 == g * u.0,
            x.1 * t.0 == g * u.1,
    ;
    lemma_product_denominator(t.0, t.1);
    lemma_frac_scale(x.0, x.1, t.0 * t.1);
    lemma_frac_lowest(x.0, x.1);
}

/// Comparing two fractions through their reduced forms is comparing the cross products.
pub proof fn lemma_lt_of_fracs(a: int, b: int, c: int, d: int)
    requires
        b > 0,
        d > 0,
    ensures
        q_lt(frac(a, b), frac(c, d)) <==> a * d < c * b,
{
    lemma_frac(a, b);
    lemma_frac(c, d);
    let f = frac(a, b);
    let h = frac(c, d);
    assert(f.0 * h.1 < h.0 * f.1 <==> a * d < c * b) by (nonlinear_arith)
        requires
            a * f.1 == f.0 * b,
            c * h.1 == h.0 * d,
            b > 0,
            d > 0,
            f.1 > 0,
            h.1 > 0,
    ;
}


} // verus!
