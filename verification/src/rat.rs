//! Exact rational arithmetic.
//!
//! Payoffs, chance probabilities, linear-program coefficients and solved
//! variable values are all carried as `Rat` values: a signed 64-bit
//! numerator over a positive 64-bit denominator.  Every operation is exact;
//! an operation whose result cannot be represented reports `None` instead
//! of rounding.  Spec-level values are pairs of unbounded integers compared
//! by cross multiplication, so contracts never depend on how a value is
//! reduced.

use vstd::arithmetic::div_mod::lemma_fundamental_div_mod;
use vstd::arithmetic::div_mod::lemma_mod_bound;
use vstd::prelude::*;

verus! {

/// A rational number: `num / den` with `den >= 1`.
#[derive(Clone, Copy, Debug)]
pub struct Rat {
    pub num: i64,
    pub den: i64,
}

/// Two spec rationals are equal when they cross-multiply equally.
pub open spec fn q_eq(a: (int, int), b: (int, int)) -> bool {
    a.0 * b.1 == b.0 * a.1
}

/// Spec addition: `a/b + c/d = (ad + cb) / bd`.
pub open spec fn q_add(a: (int, int), b: (int, int)) -> (int, int) {
    (a.0 * b.1 + b.0 * a.1, a.1 * b.1)
}

/// Spec multiplication.
pub open spec fn q_mul(a: (int, int), b: (int, int)) -> (int, int) {
    (a.0 * b.0, a.1 * b.1)
}

/// Spec negation.
pub open spec fn q_neg(a: (int, int)) -> (int, int) {
    (-a.0, a.1)
}

/// Spec division: `(a/b) / (c/d) = ad / bc`.  Meaningful only for `c != 0`.
pub open spec fn q_div(a: (int, int), b: (int, int)) -> (int, int) {
    (a.0 * b.1, a.1 * b.0)
}

/// Spec ordering; assumes both denominators are positive.
pub open spec fn q_le(a: (int, int), b: (int, int)) -> bool {
    a.0 * b.1 <= b.0 * a.1
}

/// Strict spec ordering; assumes both denominators are positive.
pub open spec fn q_lt(a: (int, int), b: (int, int)) -> bool {
    a.0 * b.1 < b.0 * a.1
}

/// Sum of a sequence of spec rationals, from the left.
pub open spec fn q_sum(s: Seq<(int, int)>) -> (int, int)
    decreases s.len(),
{
    if s.len() == 0 {
        (0int, 1int)
    } else {
        q_add(q_sum(s.drop_last()), s.last())
    }
}

/// Whether a spec rational's parts both fit in an `i64` with a positive
/// denominator.
pub open spec fn in_i64_range(a: (int, int)) -> bool {
    &&& -0x7fff_ffff_ffff_ffff <= a.0 <= 0x7fff_ffff_ffff_ffff
    &&& 1 <= a.1 <= 0x7fff_ffff_ffff_ffff
}

/// Whether a spec rational's parts have `i64` magnitude, whatever the
/// denominator's sign.
pub open spec fn in_i64_magnitude(a: (int, int)) -> bool {
    &&& -0x7fff_ffff_ffff_ffff <= a.0 <= 0x7fff_ffff_ffff_ffff
    &&& -0x7fff_ffff_ffff_ffff <= a.1 <= 0x7fff_ffff_ffff_ffff
    &&& a.1 != 0
}

impl Rat {
    /// The mathematical value: numerator and denominator as unbounded
    /// integers.
    pub open spec fn v(self) -> (int, int) {
        (self.num as int, self.den as int)
    }

    /// Well-formed: positive denominator, numerator negatable without
    /// overflow.
    pub open spec fn wf(self) -> bool {
        self.den >= 1 && self.num > i64::MIN
    }

    /// Builds the rational `num / den`, reduced.
    pub fn new(num: i64, den: i64) -> (r: Rat)
        requires
            den >= 1,
            num > i64::MIN,
        ensures
            r.wf(),
            q_eq(r.v(), (num as int, den as int)),
    {
        let neg = num < 0;
        let mag: u64 = if neg { (-num) as u64 } else { num as u64 };
        let reduced = norm_mag(neg, mag as u128, den as u128);
        match reduced {
            Some(r) => r,
            None => Rat { num, den },  // unreachable: the parts already fit
        }
    }

    /// Builds the integer `n` as a rational.
    pub fn from_int(n: i64) -> (r: Rat)
        requires
            n > i64::MIN,
        ensures
            r.wf(),
            r.v() == (n as int, 1int),
    {
        Rat { num: n, den: 1 }
    }

    /// The rational zero.
    pub fn zero() -> (r: Rat)
        ensures
            r.wf(),
            r.v() == (0int, 1int),
    {
        Rat { num: 0, den: 1 }
    }

    /// The rational one.
    pub fn one() -> (r: Rat)
        ensures
            r.wf(),
            r.v() == (1int, 1int),
    {
        Rat { num: 1, den: 1 }
    }

    /// Exact addition; `None` when the result cannot be represented.
    pub fn add(self, other: Rat) -> (r: Option<Rat>)
        requires
            self.wf(),
            other.wf(),
        ensures
            r matches Some(q) ==> q.wf() && q_eq(q.v(), q_add(self.v(), other.v())),
            in_i64_range(q_add(self.v(), other.v())) ==> r is Some,
    {
        proof {
            lemma_abs_mul_le(
                self.num as int,
                other.den as int,
                0x7fff_ffff_ffff_ffff,
                0x7fff_ffff_ffff_ffff,
            );
            lemma_abs_mul_le(
                other.num as int,
                self.den as int,
                0x7fff_ffff_ffff_ffff,
                0x7fff_ffff_ffff_ffff,
            );
            lemma_mul_pos(self.den as int, other.den as int);
            lemma_abs_mul_le(
                self.den as int,
                other.den as int,
                0x7fff_ffff_ffff_ffff,
                0x7fff_ffff_ffff_ffff,
            );
        }
        let n: i128 = (self.num as i128) * (other.den as i128)
            + (other.num as i128) * (self.den as i128);
        let d: i128 = (self.den as i128) * (other.den as i128);
        let neg = n < 0;
        let mag: u128 = if neg { (-n) as u128 } else { n as u128 };
        norm_mag(neg, mag, d as u128)
    }

    /// Exact subtraction; `None` when the result cannot be represented.
    pub fn sub(self, other: Rat) -> (r: Option<Rat>)
        requires
            self.wf(),
            other.wf(),
        ensures
            r matches Some(q) ==> q.wf() && q_eq(q.v(), q_add(self.v(), q_neg(other.v()))),
            in_i64_range(q_add(self.v(), q_neg(other.v()))) ==> r is Some,
    {
        self.add(other.neg())
    }

    /// Exact multiplication; `None` when the result cannot be represented.
    pub fn mul(self, other: Rat) -> (r: Option<Rat>)
        requires
            self.wf(),
            other.wf(),
        ensures
            r matches Some(q) ==> q.wf() && q_eq(q.v(), q_mul(self.v(), other.v())),
            in_i64_range(q_mul(self.v(), other.v())) ==> r is Some,
    {
        proof {
            lemma_abs_mul_le(
                self.num as int,
                other.num as int,
                0x7fff_ffff_ffff_ffff,
                0x7fff_ffff_ffff_ffff,
            );
            lemma_mul_pos(self.den as int, other.den as int);
            lemma_abs_mul_le(
                self.den as int,
                other.den as int,
                0x7fff_ffff_ffff_ffff,
                0x7fff_ffff_ffff_ffff,
            );
        }
        let n: i128 = (self.num as i128) * (other.num as i128);
        let d: i128 = (self.den as i128) * (other.den as i128);
        let neg = n < 0;
        let mag: u128 = if neg { (-n) as u128 } else { n as u128 };
        norm_mag(neg, mag, d as u128)
    }

    /// Exact negation.
    pub fn neg(self) -> (r: Rat)
        requires
            self.wf(),
        ensures
            r.wf(),
            r.v() == q_neg(self.v()),
    {
        Rat { num: -self.num, den: self.den }
    }

    /// The reciprocal, with the sign moved into the numerator.
    pub fn inv(self) -> (r: Rat)
        requires
            self.wf(),
            self.v().0 != 0,
        ensures
            r.wf(),
            self.num > 0 ==> r.v() == (self.den as int, self.num as int),
            self.num < 0 ==> r.v() == (-(self.den as int), -(self.num as int)),
    {
        if self.num > 0 {
            Rat { num: self.den, den: self.num }
        } else {
            Rat { num: -self.den, den: -self.num }
        }
    }

    /// Exact division; `None` when the result cannot be represented.
    pub fn div(self, other: Rat) -> (r: Option<Rat>)
        requires
            self.wf(),
            other.wf(),
            other.v().0 != 0,
        ensures
            r matches Some(q) ==> q.wf() && q_eq(q.v(), q_div(self.v(), other.v())),
            in_i64_magnitude(q_div(self.v(), other.v())) ==> r is Some,
    {
        let i = other.inv();
        let r = self.mul(i);
        proof {
            if other.num > 0 {
                lemma_mul_pos(self.den as int, other.num as int);
            } else {
                lemma_mul_negate_right(self.v().0, other.v().1);
                lemma_mul_negate_right(self.v().1, other.v().0);
                lemma_mul_pos(self.den as int, -(other.num as int));
                if r is Some {
                    lemma_q_eq_flip(
                        r.unwrap().v(),
                        self.v().0 * other.v().1,
                        self.v().1 * other.v().0,
                    );
                }
            }
        }
        r
    }

    /// Exact comparison `self <= other`.
    pub fn le(self, other: Rat) -> (r: bool)
        requires
            self.wf(),
            other.wf(),
        ensures
            r == q_le(self.v(), other.v()),
    {
        proof {
            lemma_abs_mul_le(
                self.num as int,
                other.den as int,
                0x7fff_ffff_ffff_ffff,
                0x7fff_ffff_ffff_ffff,
            );
            lemma_abs_mul_le(
                other.num as int,
                self.den as int,
                0x7fff_ffff_ffff_ffff,
                0x7fff_ffff_ffff_ffff,
            );
        }
        (self.num as i128) * (other.den as i128) <= (other.num as i128) * (self.den as i128)
    }

    /// Exact comparison `self < other`.
    pub fn lt(self, other: Rat) -> (r: bool)
        requires
            self.wf(),
            other.wf(),
        ensures
            r == q_lt(self.v(), other.v()),
    {
        proof {
            lemma_abs_mul_le(
                self.num as int,
                other.den as int,
                0x7fff_ffff_ffff_ffff,
                0x7fff_ffff_ffff_ffff,
            );
            lemma_abs_mul_le(
                other.num as int,
                self.den as int,
                0x7fff_ffff_ffff_ffff,
                0x7fff_ffff_ffff_ffff,
            );
        }
        (self.num as i128) * (other.den as i128) < (other.num as i128) * (self.den as i128)
    }

    /// Exact equality of the mathematical values.
    pub fn eq_val(self, other: Rat) -> (r: bool)
        requires
            self.wf(),
            other.wf(),
        ensures
            r == q_eq(self.v(), other.v()),
    {
        proof {
            lemma_abs_mul_le(
                self.num as int,
                other.den as int,
                0x7fff_ffff_ffff_ffff,
                0x7fff_ffff_ffff_ffff,
            );
            lemma_abs_mul_le(
                other.num as int,
                self.den as int,
                0x7fff_ffff_ffff_ffff,
                0x7fff_ffff_ffff_ffff,
            );
        }
        (self.num as i128) * (other.den as i128) == (other.num as i128) * (self.den as i128)
    }

    /// Run-time test of well-formedness.
    pub fn check_wf(&self) -> (b: bool)
        ensures
            b == self.wf(),
    {
        self.den >= 1 && self.num > i64::MIN
    }

    /// Whether this rational is exactly zero.
    pub fn is_zero(self) -> (r: bool)
        ensures
            r == (self.v().0 == 0),
    {
        self.num == 0
    }
}

/// `|a * b| <= ma * mb` whenever `|a| <= ma` and `|b| <= mb`.
proof fn lemma_abs_mul_le(a: int, b: int, ma: int, mb: int)
    by (nonlinear_arith)
    requires
        -ma <= a <= ma,
        -mb <= b <= mb,
    ensures
        -(ma * mb) <= a * b <= ma * mb,
{
}

/// The product of two positive integers is positive.
proof fn lemma_mul_pos(a: int, b: int)
    by (nonlinear_arith)
    requires
        a >= 1,
        b >= 1,
    ensures
        a * b >= 1,
{
}

/// `a * (-b) == -(a * b)`.
proof fn lemma_mul_negate_right(a: int, b: int)
    by (nonlinear_arith)
    ensures
        a * (-b) == -(a * b),
        (-a) * b == -(a * b),
{
}

/// Cross-multiplying equally against a pair keeps holding when both parts
/// of the pair are negated.
proof fn lemma_q_eq_flip(x: (int, int), n: int, d: int)
    by (nonlinear_arith)
    requires
        q_eq(x, (-n, -d)),
    ensures
        q_eq(x, (n, d)),
{
}

/// Greatest common divisor by Euclid's algorithm; only positivity is
/// needed by callers, since `norm_mag` re-checks divisibility at run time.
fn gcd_u128(a: u128, b: u128) -> (g: u128)
    requires
        b >= 1,
    ensures
        g >= 1,
    decreases a,
{
    if a == 0 {
        b
    } else {
        proof {
            lemma_mod_bound(b as int, a as int);
        }
        gcd_u128(b % a, a)
    }
}

/// Packs a sign and two magnitudes into a reduced `Rat`, reporting `None`
/// when even the reduced form does not fit in an `i64`.
fn norm_mag(neg: bool, n: u128, d: u128) -> (r: Option<Rat>)
    requires
        d >= 1,
    ensures
        r matches Some(q) ==> q.wf() && q_eq(
            q.v(),
            (if neg { -(n as int) } else { n as int }, d as int),
        ),
        n <= 0x7fff_ffff_ffff_ffff && d <= 0x7fff_ffff_ffff_ffff ==> r is Some,
{
    let g: u128 = if n == 0 { d } else { gcd_u128(n, d) };
    let mut n2: u128 = n;
    let mut d2: u128 = d;
    if g >= 1 && n % g == 0 && d % g == 0 && d / g >= 1 {
        proof {
            lemma_fundamental_div_mod(n as int, g as int);
            lemma_fundamental_div_mod(d as int, g as int);
            lemma_exact_div_preserves_ratio(
                n as int,
                d as int,
                g as int,
                (n / g) as int,
                (d / g) as int,
            );
        }
        n2 = n / g;
        d2 = d / g;
    }
    if n2 <= 0x7fff_ffff_ffff_ffff && d2 <= 0x7fff_ffff_ffff_ffff && d2 >= 1 {
        let num: i64 = if neg { -(n2 as i64) } else { n2 as i64 };
        Some(Rat { num, den: d2 as i64 })
    } else {
        None
    }
}

/// Dividing numerator and denominator by an exact common divisor keeps the
/// cross-multiplication value, and never grows either part.
proof fn lemma_exact_div_preserves_ratio(n: int, d: int, g: int, qn: int, qd: int)
    by (nonlinear_arith)
    requires
        n >= 0,
        d >= 1,
        g >= 1,
        n == g * qn + (n % g),
        d == g * qd + (d % g),
        n % g == 0,
        d % g == 0,
    ensures
        qn * d == n * qd,
        (-qn) * d == (-n) * qd,
        qn <= n,
        qd <= d,
{
}

} // verus!
