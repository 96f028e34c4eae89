//! Exact rational scalars.
//!
//! The solver's numeric fields hold `Scalar` values: reduced fractions with
//! 64-bit numerator and positive 64-bit denominator.  Every arithmetic
//! operation is exact; a result whose reduced form would not fit 64 bits is
//! reported as `Error::Overflow` instead of being rounded.  Contracts speak
//! about the mathematical value through the ghost type `Rat` and the
//! equivalence `rat_eq`.

use vstd::prelude::*;
use vstd::arithmetic::div_mod::lemma_fundamental_div_mod;
use vstd::arithmetic::div_mod::lemma_mod_multiples_basic;
use vstd::arithmetic::mul::lemma_mul_is_commutative;
use vstd::arithmetic::mul::lemma_mul_is_distributive_add_other_way;
use vstd::arithmetic::mul::lemma_mul_is_distributive_sub_other_way;

verus! {

/// Errors reported by the solver core.
#[derive(Debug, Clone, Copy, PartialEq, Eq, Structural)]
pub enum Error {
    /// The slice given to `Matrix::new` had the wrong size.
    InvalidSliceSize,
    /// The reduced form of an exact result does not fit the 64-bit
    /// components of a `Scalar`.
    Overflow,
    /// Division by an exactly zero scalar (for instance a zero-density
    /// cell when deriving velocity).
    DivisionByZero,
}

/// Mathematical value of a scalar: the fraction `n / d`.
pub ghost struct Rat {
    pub n: int,
    pub d: int,
}

/// A well-formed fraction keeps its denominator positive.
pub open spec fn rat_wf(a: Rat) -> bool {
    a.d > 0
}

/// Two fractions denote the same rational number.
pub open spec fn rat_eq(a: Rat, b: Rat) -> bool {
    a.n * b.d == b.n * a.d
}

pub open spec fn rat_int(i: int) -> Rat {
    Rat { n: i, d: 1 }
}

pub open spec fn rat_add(a: Rat, b: Rat) -> Rat {
    Rat { n: a.n * b.d + b.n * a.d, d: a.d * b.d }
}

pub open spec fn rat_sub(a: Rat, b: Rat) -> Rat {
    Rat { n: a.n * b.d - b.n * a.d, d: a.d * b.d }
}

pub open spec fn rat_mul(a: Rat, b: Rat) -> Rat {
    Rat { n: a.n * b.n, d: a.d * b.d }
}

pub open spec fn rat_neg(a: Rat) -> Rat {
    Rat { n: -a.n, d: a.d }
}

/// Reciprocal; well-formed only for a nonzero argument.
pub open spec fn rat_inv(b: Rat) -> Rat {
    if b.n >= 0 {
        Rat { n: b.d, d: b.n }
    } else {
        Rat { n: -b.d, d: -b.n }
    }
}

pub open spec fn rat_div(a: Rat, b: Rat) -> Rat {
    rat_mul(a, rat_inv(b))
}

/// `a <= b` as rational numbers (both well-formed).
pub open spec fn rat_le(a: Rat, b: Rat) -> bool {
    a.n * b.d <= b.n * a.d
}

pub open spec fn rat_lt(a: Rat, b: Rat) -> bool {
    a.n * b.d < b.n * a.d
}

pub proof fn lemma_rat_eq_trans(a: Rat, b: Rat, c: Rat) by (nonlinear_arith)
    requires
        rat_wf(a),
        rat_wf(b),
        rat_wf(c),
        rat_eq(a, b),
        rat_eq(b, c),
    ensures
        rat_eq(a, c),
{
    assert((a.n * c.d - c.n * a.d) * b.d == (a.n * b.d - b.n * a.d) * c.d + (b.n * c.d - c.n * b.d) * a.d);
}

proof fn lemma_mul_shuffle(x: int, y: int, z: int, w: int)
    by (nonlinear_arith)
    ensures
        (x * y) * (z * w) == (y * w) * (x * z),
        (x * y) * (z * w) == (y * z) * (x * w),
{
}

proof fn lemma_cross_mul_helper(an: int, ad: int, bn: int, bd: int, cn: int, cd: int, en: int, ed: int)
    ensures
        (an * bd + bn * ad) * (cd * ed) == (bd * ed) * (an * cd) + (ad * cd) * (bn * ed),
        (an * bd - bn * ad) * (cd * ed) == (bd * ed) * (an * cd) - (ad * cd) * (bn * ed),
{
    lemma_mul_is_distributive_add_other_way(cd * ed, an * bd, bn * ad);
    lemma_mul_is_distributive_sub_other_way(cd * ed, an * bd, bn * ad);
    lemma_mul_shuffle(an, bd, cd, ed);
    lemma_mul_shuffle(bn, ad, cd, ed);
}

pub proof fn lemma_rat_add_cong(a: Rat, b: Rat, a2: Rat, b2: Rat)
    requires
        rat_wf(a),
        rat_wf(b),
        rat_wf(a2),
        rat_wf(b2),
        rat_eq(a, a2),
        rat_eq(b, b2),
    ensures
        rat_eq(rat_add(a, b), rat_add(a2, b2)),
{
    lemma_cross_mul_helper(a.n, a.d, b.n, b.d, a2.n, a2.d, b2.n, b2.d);
    lemma_cross_mul_helper(a2.n, a2.d, b2.n, b2.d, a.n, a.d, b.n, b.d);
    lemma_mul_is_commutative(b.d, b2.d);
    lemma_mul_is_commutative(a.d, a2.d);
}

pub proof fn lemma_rat_sub_cong(a: Rat, b: Rat, a2: Rat, b2: Rat)
    requires
        rat_wf(a),
        rat_wf(b),
        rat_wf(a2),
        rat_wf(b2),
        rat_eq(a, a2),
        rat_eq(b, b2),
    ensures
        rat_eq(rat_sub(a, b), rat_sub(a2, b2)),
{
    lemma_cross_mul_helper(a.n, a.d, b.n, b.d, a2.n, a2.d, b2.n, b2.d);
    lemma_cross_mul_helper(a2.n, a2.d, b2.n, b2.d, a.n, a.d, b.n, b.d);
    lemma_mul_is_commutative(b.d, b2.d);
    lemma_mul_is_commutative(a.d, a2.d);
}

pub proof fn lemma_rat_mul_cong(a: Rat, b: Rat, a2: Rat, b2: Rat)
    requires
        rat_wf(a),
        rat_wf(b),
        rat_wf(a2),
        rat_wf(b2),
        rat_eq(a, a2),
        rat_eq(b, b2),
    ensures
        rat_eq(rat_mul(a, b), rat_mul(a2, b2)),
{
    assert((a.n * b.n) * (a2.d * b2.d) == (a2.n * b2.n) * (a.d * b.d))
        by (nonlinear_arith)
        requires
            a.n * a2.d == a2.n * a.d,
            b.n * b2.d == b2.n * b.d,
    {
        assert((a.n * b.n) * (a2.d * b2.d) == (a.n * a2.d) * (b.n * b2.d));
        assert((a2.n * b2.n) * (a.d * b.d) == (a2.n * a.d) * (b2.n * b.d));
    }
}

/// Negation respects value equality.
pub proof fn lemma_rat_neg_cong(a: Rat, a2: Rat)
    requires
        rat_eq(a, a2),
    ensures
        rat_eq(rat_neg(a), rat_neg(a2)),
{
    vstd::arithmetic::mul::lemma_mul_unary_negation(a.n, a2.d);
    vstd::arithmetic::mul::lemma_mul_unary_negation(a2.n, a.d);
}

/// The reciprocal respects value equality of nonzero fractions.
pub proof fn lemma_rat_inv_cong(b: Rat, b2: Rat)
    requires
        rat_wf(b),
        rat_wf(b2),
        b.n != 0,
        b2.n != 0,
        rat_eq(b, b2),
    ensures
        rat_wf(rat_inv(b)),
        rat_wf(rat_inv(b2)),
        rat_eq(rat_inv(b), rat_inv(b2)),
{
    assert(b.n > 0 ==> b2.n > 0) by (nonlinear_arith)
        requires
            b.n * b2.d == b2.n * b.d,
            b.d > 0,
            b2.d > 0,
            b2.n != 0,
    {
    }
    assert(b.n < 0 ==> b2.n < 0) by (nonlinear_arith)
        requires
            b.n * b2.d == b2.n * b.d,
            b.d > 0,
            b2.d > 0,
            b2.n != 0,
    {
    }
    lemma_mul_is_commutative(b.d, b2.n);
    lemma_mul_is_commutative(b2.d, b.n);
    if b.n < 0 {
        vstd::arithmetic::mul::lemma_mul_unary_negation(b.d, b2.n);
        vstd::arithmetic::mul::lemma_mul_unary_negation(b2.d, b.n);
        vstd::arithmetic::mul::lemma_mul_unary_negation(-(b.d), b2.n);
        vstd::arithmetic::mul::lemma_mul_unary_negation(-(b2.d), b.n);
    }
}

/// Division respects value equality; the divisors must be nonzero.
pub proof fn lemma_rat_div_cong(a: Rat, b: Rat, a2: Rat, b2: Rat)
    requires
        rat_wf(a),
        rat_wf(b),
        rat_wf(a2),
        rat_wf(b2),
        b.n != 0,
        b2.n != 0,
        rat_eq(a, a2),
        rat_eq(b, b2),
    ensures
        rat_eq(rat_div(a, b), rat_div(a2, b2)),
{
    lemma_rat_inv_cong(b, b2);
    lemma_rat_mul_cong(a, rat_inv(b), a2, rat_inv(b2));
}

/// Sums and differences of well-formed fractions are well-formed, as are
/// products and reciprocals of nonzero ones.
pub proof fn lemma_rat_op_wf(a: Rat, b: Rat)
    requires
        rat_wf(a),
        rat_wf(b),
    ensures
        rat_wf(rat_add(a, b)),
        rat_wf(rat_sub(a, b)),
        rat_wf(rat_mul(a, b)),
        rat_wf(rat_neg(a)),
        b.n != 0 ==> rat_wf(rat_div(a, b)),
{
    vstd::arithmetic::mul::lemma_mul_strictly_positive(a.d, b.d);
    if b.n > 0 {
        vstd::arithmetic::mul::lemma_mul_strictly_positive(a.d, b.n);
    }
    if b.n < 0 {
        vstd::arithmetic::mul::lemma_mul_strictly_positive(a.d, -b.n);
        vstd::arithmetic::mul::lemma_mul_unary_negation(a.d, b.n);
    }
}

/// Rewrite both operands of a sum under value equality: from
/// `cur == a + b`, `a == a2` and `b == b2` conclude `cur == a2 + b2`.
pub proof fn lemma_rewrite_add(cur: Rat, a: Rat, b: Rat, a2: Rat, b2: Rat)
    requires
        rat_wf(cur),
        rat_wf(a),
        rat_wf(b),
        rat_wf(a2),
        rat_wf(b2),
        rat_eq(cur, rat_add(a, b)),
        rat_eq(a, a2),
        rat_eq(b, b2),
    ensures
        rat_eq(cur, rat_add(a2, b2)),
{
    lemma_rat_add_cong(a, b, a2, b2);
    lemma_rat_op_wf(a, b);
    lemma_rat_op_wf(a2, b2);
    lemma_rat_eq_trans(cur, rat_add(a, b), rat_add(a2, b2));
}

/// As `lemma_rewrite_add`, for differences.
pub proof fn lemma_rewrite_sub(cur: Rat, a: Rat, b: Rat, a2: Rat, b2: Rat)
    requires
        rat_wf(cur),
        rat_wf(a),
        rat_wf(b),
        rat_wf(a2),
        rat_wf(b2),
        rat_eq(cur, rat_sub(a, b)),
        rat_eq(a, a2),
        rat_eq(b, b2),
    ensures
        rat_eq(cur, rat_sub(a2, b2)),
{
    lemma_rat_sub_cong(a, b, a2, b2);
    lemma_rat_op_wf(a, b);
    lemma_rat_op_wf(a2, b2);
    lemma_rat_eq_trans(cur, rat_sub(a, b), rat_sub(a2, b2));
}

/// As `lemma_rewrite_add`, for products.
pub proof fn lemma_rewrite_mul(cur: Rat, a: Rat, b: Rat, a2: Rat, b2: Rat)
    requires
        rat_wf(cur),
        rat_wf(a),
        rat_wf(b),
        rat_wf(a2),
        rat_wf(b2),
        rat_eq(cur, rat_mul(a, b)),
        rat_eq(a, a2),
        rat_eq(b, b2),
    ensures
        rat_eq(cur, rat_mul(a2, b2)),
{
    lemma_rat_mul_cong(a, b, a2, b2);
    lemma_rat_op_wf(a, b);
    lemma_rat_op_wf(a2, b2);
    lemma_rat_eq_trans(cur, rat_mul(a, b), rat_mul(a2, b2));
}

/// As `lemma_rewrite_add`, for quotients by nonzero divisors.
pub proof fn lemma_rewrite_div(cur: Rat, a: Rat, b: Rat, a2: Rat, b2: Rat)
    requires
        rat_wf(cur),
        rat_wf(a),
        rat_wf(b),
        rat_wf(a2),
        rat_wf(b2),
        b.n != 0,
        b2.n != 0,
        rat_eq(cur, rat_div(a, b)),
        rat_eq(a, a2),
        rat_eq(b, b2),
    ensures
        rat_eq(cur, rat_div(a2, b2)),
{
    lemma_rat_div_cong(a, b, a2, b2);
    lemma_rat_op_wf(a, b);
    lemma_rat_op_wf(a2, b2);
    lemma_rat_eq_trans(cur, rat_div(a, b), rat_div(a2, b2));
}

/// Equal nonzero fractions have numerators of the same sign.
pub proof fn lemma_rat_eq_nonzero(a: Rat, b: Rat)
    requires
        rat_wf(a),
        rat_wf(b),
        rat_eq(a, b),
    ensures
        a.n == 0 <==> b.n == 0,
        a.n > 0 <==> b.n > 0,
    {
    assert((a.n > 0 <==> b.n > 0) && (a.n == 0 <==> b.n == 0)) by (nonlinear_arith)
        requires
            a.n * b.d == b.n * a.d,
            a.d > 0,
            b.d > 0,
    {
    }
}

/// Greatest common divisor by the Euclidean recursion.
pub open spec fn gcd(a: nat, b: nat) -> nat
    decreases b,
{
    if b == 0 {
        a
    } else {
        gcd(b, a % b)
    }
}

/// The Euclidean gcd divides both of its arguments.
pub proof fn lemma_gcd_divides(a: nat, b: nat)
    ensures
        b > 0 || a > 0 ==> gcd(a, b) > 0,
        gcd(a, b) > 0 ==> a % gcd(a, b) == 0,
        gcd(a, b) > 0 ==> b % gcd(a, b) == 0,
    decreases b,
{
    if b == 0 {
        if a > 0 {
            lemma_mod_multiples_basic(1, a as int);
        }
    } else {
        lemma_gcd_divides(b, a % b);
        let g = gcd(b, (a % b) as nat);
        assert(g > 0);
        lemma_fundamental_div_mod(a as int, b as int);
        lemma_fundamental_div_mod(b as int, g as int);
        lemma_fundamental_div_mod((a % b) as int, g as int);
        let q: int = a as int / b as int;
        let kb: int = b as int / g as int;
        let kr: int = (a % b) as int / g as int;
        assert(a as int == g as int * (kb * q + kr)) by (nonlinear_arith)
            requires
                a as int == b as int * q + (a % b) as int,
                b as int == g as int * kb + 0,
                (a % b) as int == g as int * kr + 0,
        {
        }
        lemma_mod_multiples_basic(kb * q + kr, g as int);
    }
}

/// Magnitude of an integer, as a natural number.
pub open spec fn iabs(i: int) -> nat {
    if i < 0 {
        (-i) as nat
    } else {
        i as nat
    }
}

/// Numerator of the fraction `n / d` once the denominator has been made
/// positive and the common factor removed.
pub open spec fn red_n(n: int, d: int) -> int {
    let nn = if d < 0 { -n } else { n };
    let dd = if d < 0 { -d } else { d };
    nn / gcd(iabs(nn), dd as nat) as int
}

/// Denominator of the fraction `n / d` in the same reduced form.
pub open spec fn red_d(n: int, d: int) -> int {
    let nn = if d < 0 { -n } else { n };
    let dd = if d < 0 { -d } else { d };
    dd / gcd(iabs(nn), dd as nat) as int
}

/// The reduced form of the fraction fits the 64-bit scalar components.
pub open spec fn fits64(n: int, d: int) -> bool {
    iabs(red_n(n, d)) <= i64::MAX && red_d(n, d) <= i64::MAX
}

/// The reduced form of a ghost fraction fits the 64-bit scalar components.
pub open spec fn rat_fits(r: Rat) -> bool {
    fits64(r.n, r.d)
}

/// Euclid's algorithm, matching the specification `gcd` exactly.
fn gcd_exec(a0: u128, b0: u128) -> (g: u128)
    ensures
        g as nat == gcd(a0 as nat, b0 as nat),
{
    let mut a: u128 = a0;
    let mut b: u128 = b0;
    while b != 0
        invariant
            gcd(a as nat, b as nat) == gcd(a0 as nat, b0 as nat),
        decreases b,
    {
        let r: u128 = a % b;
        a = b;
        b = r;
    }
    a
}

proof fn lemma_exact_div_mul(x: int, y: int, g: int)
    by (nonlinear_arith)
    ensures
        x * (g * y) == (g * x) * y,
        (-x) * (g * y) == -((g * x) * y),
{
}

/// An exact scalar: the reduced fraction `num / den` with `den > 0`.
#[derive(Debug, Clone, Copy, PartialEq, Eq, Structural)]
pub struct Scalar {
    num: i64,
    den: i64,
}

impl View for Scalar {
    type V = Rat;

    closed spec fn view(&self) -> Rat {
        Rat { n: self.num as int, d: self.den as int }
    }
}

impl Scalar {
    /// Denominators stay positive; every public constructor reduces.
    #[verifier::type_invariant]
    pub open spec fn wf(self) -> bool {
        rat_wf(self@)
    }

    /// The whole integer `i` as a scalar.
    pub fn from_int(i: i64) -> (s: Scalar)
        ensures
            s.wf(),
            s@ == rat_int(i as int),
    {
        Scalar { num: i, den: 1 }
    }

    /// Internal constructor for fractions already known to be in range.
    pub(crate) fn from_parts(num: i64, den: i64) -> (s: Scalar)
        requires
            den > 0,
        ensures
            s.wf(),
            s@ == (Rat { n: num as int, d: den as int }),
    {
        Scalar { num, den }
    }

    pub fn zero() -> (s: Scalar)
        ensures
            s.wf(),
            s@ == rat_int(0),
    {
        Scalar::from_int(0)
    }

    pub fn one() -> (s: Scalar)
        ensures
            s.wf(),
            s@ == rat_int(1),
    {
        Scalar::from_int(1)
    }

    pub fn numer(&self) -> (n: i64)
        ensures
            n as int == self@.n,
    {
        self.num
    }

    pub fn denom(&self) -> (d: i64)
        ensures
            d as int == self@.d,
    {
        self.den
    }

    /// Reduce the fraction `n / d` to a `Scalar`, reporting `Overflow`
    /// when the reduced components do not fit 64 bits.
    fn normalize(n: i128, d: i128) -> (r: Result<Scalar, Error>)
        requires
            d != 0,
            n != i128::MIN,
            d != i128::MIN,
        ensures
            r matches Ok(s) ==> s.wf() && rat_eq(s@, Rat { n: n as int, d: d as int })
                && s@.n == red_n(n as int, d as int) && s@.d == red_d(n as int, d as int),
            r is Ok <==> fits64(n as int, d as int),
            r matches Err(e) ==> e == Error::Overflow,
    {
        let (nn, dd): (i128, i128) = if d < 0 { (-n, -d) } else { (n, d) };
        let na: u128 = if nn < 0 { (-nn) as u128 } else { nn as u128 };
        let g: u128 = gcd_exec(na, dd as u128);
        proof {
            lemma_gcd_divides(na as nat, dd as nat);
        }
        let rn_abs: u128 = na / g;
        let rd: u128 = dd as u128 / g;
        proof {
            lemma_fundamental_div_mod(na as int, g as int);
            lemma_fundamental_div_mod(dd as int, g as int);
            assert(na as int == g as int * rn_abs as int);
            assert(dd as int == g as int * rd as int);
            lemma_mul_is_commutative(g as int, rn_abs as int);
            vstd::arithmetic::mul::lemma_mul_unary_negation(rn_abs as int, g as int);
            assert(rd >= 1) by (nonlinear_arith)
                requires
                    dd as int == g as int * rd as int,
                    dd > 0,
                    g > 0,
            {
            }
            if nn < 0 {
                assert(nn as int == (-(rn_abs as int)) * (g as int) + 0);
                vstd::arithmetic::div_mod::lemma_fundamental_div_mod_converse(
                    nn as int, g as int, -(rn_abs as int), 0);
                assert(nn as int / g as int == -(rn_abs as int));
            }
        }
        if rn_abs > i64::MAX as u128 || rd > i64::MAX as u128 {
            return Err(Error::Overflow);
        }
        let num: i64 = if nn < 0 { -(rn_abs as i64) } else { rn_abs as i64 };
        let den: i64 = rd as i64;
        proof {
            lemma_exact_div_mul(rn_abs as int, rd as int, g as int);
            if nn < 0 {
                vstd::arithmetic::mul::lemma_mul_unary_negation(na as int, rd as int);
                assert(num as int == -(rn_abs as int));
                assert(nn as int == -(na as int));
            }
            assert(num as int * dd as int == nn as int * rd as int);
            if d < 0 {
                assert(num as int * d as int == -(num as int * dd as int))
                    by (nonlinear_arith)
                    requires
                        d as int == -(dd as int),
                {
                }
                assert(n as int * den as int == -(nn as int * rd as int))
                    by (nonlinear_arith)
                    requires
                        n as int == -(nn as int),
                        den as int == rd as int,
                {
                }
            }
        }
        Ok(Scalar { num, den })
    }

    /// Exact sum.
    pub fn add(&self, rhs: &Scalar) -> (r: Result<Scalar, Error>)
        ensures
            r matches Ok(s) ==> s.wf() && rat_eq(s@, rat_add(self@, rhs@)),
            r is Ok <==> rat_fits(rat_add(self@, rhs@)),
            r matches Err(e) ==> e == Error::Overflow,
    {
        proof {
            use_type_invariant(*self);
            use_type_invariant(*rhs);
            lemma_i64_products(self.num as int, rhs.den as int);
            lemma_i64_products(rhs.num as int, self.den as int);
            lemma_i64_products(self.den as int, rhs.den as int);
            vstd::arithmetic::mul::lemma_mul_strictly_positive(self.den as int, rhs.den as int);
        }
        let n: i128 = self.num as i128 * rhs.den as i128 + rhs.num as i128 * self.den as i128;
        let d: i128 = self.den as i128 * rhs.den as i128;
        Scalar::normalize(n, d)
    }

    /// Exact difference.
    pub fn sub(&self, rhs: &Scalar) -> (r: Result<Scalar, Error>)
        ensures
            r matches Ok(s) ==> s.wf() && rat_eq(s@, rat_sub(self@, rhs@)),
            r is Ok <==> rat_fits(rat_sub(self@, rhs@)),
            r matches Err(e) ==> e == Error::Overflow,
    {
        proof {
            use_type_invariant(*self);
            use_type_invariant(*rhs);
            lemma_i64_products(self.num as int, rhs.den as int);
            lemma_i64_products(rhs.num as int, self.den as int);
            lemma_i64_products(self.den as int, rhs.den as int);
            vstd::arithmetic::mul::lemma_mul_strictly_positive(self.den as int, rhs.den as int);
        }
        let n: i128 = self.num as i128 * rhs.den as i128 - rhs.num as i128 * self.den as i128;
        let d: i128 = self.den as i128 * rhs.den as i128;
        Scalar::normalize(n, d)
    }

    /// Exact product.
    pub fn mul(&self, rhs: &Scalar) -> (r: Result<Scalar, Error>)
        ensures
            r matches Ok(s) ==> s.wf() && rat_eq(s@, rat_mul(self@, rhs@)),
            r is Ok <==> rat_fits(rat_mul(self@, rhs@)),
            r matches Err(e) ==> e == Error::Overflow,
    {
        proof {
            use_type_invariant(*self);
            use_type_invariant(*rhs);
            lemma_i64_products(self.num as int, rhs.num as int);
            lemma_i64_products(self.den as int, rhs.den as int);
            vstd::arithmetic::mul::lemma_mul_strictly_positive(self.den as int, rhs.den as int);
        }
        let n: i128 = self.num as i128 * rhs.num as i128;
        let d: i128 = self.den as i128 * rhs.den as i128;
        Scalar::normalize(n, d)
    }

    /// Exact quotient; a zero divisor is reported as `DivisionByZero`.
    pub fn div(&self, rhs: &Scalar) -> (r: Result<Scalar, Error>)
        ensures
            r matches Ok(s) ==> s.wf() && rat_eq(s@, rat_div(self@, rhs@)),
            rhs@.n != 0 ==> (r is Ok <==> rat_fits(rat_div(self@, rhs@))),
            rhs@.n == 0 <==> r == Err::<Scalar, Error>(Error::DivisionByZero),
            r matches Err(e) ==> e == Error::Overflow || e == Error::DivisionByZero,
    {
        if rhs.num == 0 {
            return Err(Error::DivisionByZero);
        }
        proof {
            use_type_invariant(*self);
            use_type_invariant(*rhs);
            lemma_i64_products(self.num as int, rhs.den as int);
            lemma_i64_products(self.den as int, rhs.num as int);
        }
        let n: i128 = self.num as i128 * rhs.den as i128;
        let d: i128 = self.den as i128 * rhs.num as i128;
        proof {
            assert(d != 0) by (nonlinear_arith)
                requires
                    d == self.den as int * rhs.num as int,
                    self.den as int > 0,
                    rhs.num as int != 0,
            {
            }
            vstd::arithmetic::mul::lemma_mul_unary_negation(self.num as int, rhs.den as int);
            vstd::arithmetic::mul::lemma_mul_unary_negation(self.den as int, rhs.num as int);
            if rhs.num < 0 {
                assert(rat_div(self@, rhs@) == (Rat { n: -(n as int), d: -(d as int) }));
            } else {
                assert(rat_div(self@, rhs@) == (Rat { n: n as int, d: d as int }));
            }
        }
        if rhs.num < 0 {
            Scalar::normalize(-n, -d)
        } else {
            Scalar::normalize(n, d)
        }
    }

    /// Exact negation.
    pub fn neg(&self) -> (r: Result<Scalar, Error>)
        ensures
            r matches Ok(s) ==> s.wf() && rat_eq(s@, rat_neg(self@)),
            r matches Err(e) ==> e == Error::Overflow,
    {
        proof {
            use_type_invariant(*self);
        }
        Scalar::normalize(-(self.num as i128), self.den as i128)
    }

    /// Build the reduced scalar `num / den`.
    pub fn new(num: i64, den: i64) -> (r: Result<Scalar, Error>)
        ensures
            r matches Ok(s) ==> s.wf() && rat_eq(s@, Rat { n: num as int, d: den as int }),
            den != 0 && num != i64::MIN && den != i64::MIN ==> r is Ok,
            den == 0 <==> r == Err::<Scalar, Error>(Error::DivisionByZero),
            r matches Err(e) ==> e == Error::Overflow || e == Error::DivisionByZero,
    {
        if den == 0 {
            return Err(Error::DivisionByZero);
        }
        proof {
            lemma_reduction_shrinks(num as int, den as int);
        }
        match Scalar::normalize(num as i128, den as i128) {
            Ok(s) => Ok(s),
            Err(e) => Err(e),
        }
    }

    /// `self <= rhs` as rational numbers.
    pub fn le(&self, rhs: &Scalar) -> (r: bool)
        ensures
            r == rat_le(self@, rhs@),
    {
        proof {
            use_type_invariant(*self);
            use_type_invariant(*rhs);
            lemma_i64_products(self.num as int, rhs.den as int);
            lemma_i64_products(rhs.num as int, self.den as int);
        }
        self.num as i128 * rhs.den as i128 <= rhs.num as i128 * self.den as i128
    }

    /// `self < rhs` as rational numbers.
    pub fn lt(&self, rhs: &Scalar) -> (r: bool)
        ensures
            r == rat_lt(self@, rhs@),
    {
        proof {
            use_type_invariant(*self);
            use_type_invariant(*rhs);
            lemma_i64_products(self.num as int, rhs.den as int);
            lemma_i64_products(rhs.num as int, self.den as int);
        }
        (self.num as i128 * rhs.den as i128) < (rhs.num as i128 * self.den as i128)
    }

    /// Exact value equality (the fractions denote the same number).
    pub fn eq_value(&self, rhs: &Scalar) -> (r: bool)
        ensures
            r == rat_eq(self@, rhs@),
    {
        proof {
            use_type_invariant(*self);
            use_type_invariant(*rhs);
            lemma_i64_products(self.num as int, rhs.den as int);
            lemma_i64_products(rhs.num as int, self.den as int);
        }
        self.num as i128 * rhs.den as i128 == rhs.num as i128 * self.den as i128
    }

    /// The scalar is exactly zero.
    pub fn is_zero(&self) -> (r: bool)
        ensures
            r == rat_eq(self@, rat_int(0)),
    {
        self.num == 0
    }

    /// The scalar is strictly negative.
    pub fn is_negative(&self) -> (r: bool)
        ensures
            r == rat_lt(self@, rat_int(0)),
    {
        self.num < 0
    }
}

/// Products of 64-bit components stay inside `i128`.
proof fn lemma_i64_products(x: int, y: int)
    by (nonlinear_arith)
    requires
        -0x8000_0000_0000_0000 <= x <= 0x7fff_ffff_ffff_ffff,
        -0x8000_0000_0000_0000 <= y <= 0x7fff_ffff_ffff_ffff,
    ensures
        -0x4000_0000_0000_0000_0000_0000_0000_0000 <= x * y
            <= 0x4000_0000_0000_0000_0000_0000_0000_0000,
        1 <= y <= 0x7fff_ffff_ffff_ffff ==> -0x3fff_ffff_ffff_ffff_8000_0000_0000_0000 <= x * y
            <= 0x3fff_ffff_ffff_ffff_8000_0000_0000_0000,
{
}

/// Reducing a fraction with 64-bit components never grows them.
proof fn lemma_reduction_shrinks(n: int, d: int)
    requires
        d != 0,
        -0x8000_0000_0000_0000 <= n <= 0x7fff_ffff_ffff_ffff,
        -0x8000_0000_0000_0000 <= d <= 0x7fff_ffff_ffff_ffff,
    ensures
        n != i64::MIN && d != i64::MIN ==> fits64(n, d),
{
    if n != i64::MIN && d != i64::MIN {
        let nn = if d < 0 { -n } else { n };
        let dd = if d < 0 { -d } else { d };
        let g = gcd(iabs(nn), dd as nat) as int;
        lemma_gcd_divides(iabs(nn), dd as nat);
        assert(g >= 1);
        lemma_fundamental_div_mod(dd, g);
        assert(dd / g <= dd) by (nonlinear_arith)
            requires
                dd == g * (dd / g),
                g >= 1,
                dd > 0,
        {
        }
        if nn >= 0 {
            lemma_fundamental_div_mod(nn, g);
            assert(nn / g <= nn) by (nonlinear_arith)
                requires
                    nn == g * (nn / g),
                    g >= 1,
                    nn >= 0,
            {
            }
            vstd::arithmetic::div_mod::lemma_div_pos_is_pos(nn, g);
        } else {
            let na = -nn;
            lemma_fundamental_div_mod(na, g);
            assert(na / g <= na && na / g >= 0) by (nonlinear_arith)
                requires
                    na == g * (na / g),
                    g >= 1,
                    na > 0,
            {
            }
            lemma_mul_is_commutative(g, na / g);
            vstd::arithmetic::mul::lemma_mul_unary_negation(na / g, g);
            assert(nn == (-(na / g)) * g + 0);
            vstd::arithmetic::div_mod::lemma_fundamental_div_mod_converse(
                nn, g, -(na / g), 0);
        }
    }
}

} // verus!
