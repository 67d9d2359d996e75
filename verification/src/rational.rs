//! The rational value type: a numerator/denominator pair of `isize` stored
//! verbatim, with simplification, arithmetic for every operand shape, and
//! comparison. Construction never validates; a zero denominator is allowed and
//! propagates through arithmetic rather than failing fast. Only `simplify`
//! reduces the fraction and folds the denominator's sign into both fields.

use crate::gcd::{
    abs_int, divides, gcd_int, lemma_divides_abs, lemma_exact_div_signed, lemma_gcd_divides,
    lemma_gcd_zero,
};
use core::cmp::Ordering;
use vstd::prelude::*;

verus! {

/// The outcome of the subtraction-based comparison, read off the sign of the
/// product of the difference's fields: a zero product with a non-zero
/// numerator means a zero denominator, and the operands are incomparable.
pub open spec fn order_of(dn: int, dd: int) -> Option<Ordering> {
    if dn * dd < 0 {
        Some(Ordering::Less)
    } else if dn * dd > 0 {
        Some(Ordering::Greater)
    } else if dn == 0 {
        Some(Ordering::Equal)
    } else {
        None
    }
}

/// `x` fits in the machine's signed word.
pub open spec fn in_isize(x: int) -> bool {
    isize::MIN as int <= x <= isize::MAX as int
}

/// The sign that `simplify` folds into both fields: `-1` for a negative
/// denominator, `1` otherwise.
pub open spec fn sign_of(d: int) -> int {
    if d < 0 {
        -1
    } else {
        1
    }
}

/// The numerator of the reduced, sign-canonical form of `n / d`.
pub open spec fn reduced_num(n: int, d: int) -> int {
    n / gcd_int(n, d) * sign_of(d)
}

/// The denominator of the reduced, sign-canonical form of `n / d`.
pub open spec fn reduced_denom(n: int, d: int) -> int {
    d / gcd_int(n, d) * sign_of(d)
}

/// The inputs on which `simplify` completes: at least one field non-zero (the
/// gcd of two zeros is zero and would be divided by), and every machine
/// intermediate within `isize`.
pub open spec fn simplify_ok(n: int, d: int) -> bool {
    &&& !(n == 0 && d == 0)
    &&& gcd_int(n, d) <= isize::MAX as int
    &&& in_isize(reduced_num(n, d))
    &&& in_isize(reduced_denom(n, d))
}

/// An exact fraction: numerator over denominator, both signed machine
/// integers, stored exactly as given.
#[derive(Debug, Copy, Clone)]
pub struct Rational {
    pub num: isize,
    pub denom: isize,
}

impl Rational {
    /// Stores the two integers verbatim: no validation, no reduction, and a
    /// zero denominator is permitted.
    pub fn new(num: isize, denom: isize) -> (r: Rational)
        ensures
            r.num == num,
            r.denom == denom,
    {
        Rational { num, denom }
    }

    /// Divides both fields by their greatest common divisor and folds a
    /// negative denominator's sign into both fields, so the returned
    /// denominator is never negative. A zero denominator is reduced but not
    /// repaired: it stays zero.
    pub fn simplify(self) -> (r: Rational)
        requires
            simplify_ok(self.num as int, self.denom as int),
        ensures
            r.num as int == reduced_num(self.num as int, self.denom as int),
            r.denom as int == reduced_denom(self.num as int, self.denom as int),
            self.denom != 0 ==> r.denom >= 1,
            self.denom == 0 ==> r.denom == 0,
    {
        let ghost n = self.num as int;
        let ghost d = self.denom as int;
        let g = crate::gcd::gcd_isize(self.num, self.denom);
        proof {
            lemma_gcd_zero(abs_int(n), abs_int(d));
            lemma_gcd_divides(abs_int(n), abs_int(d));
            lemma_divides_abs(g as int, abs_int(n) as int);
            lemma_divides_abs(g as int, abs_int(d) as int);
            assert(divides(g as int, n));
            assert(divides(g as int, d));
            lemma_exact_div_signed(n, g as int);
            lemma_exact_div_signed(d, g as int);
        }
        let sign: isize = if self.denom < 0 {
            -1
        } else {
            1
        };
        let qn = self.num / g;
        let qd = self.denom / g;
        proof {
            assert(qn as int == n / (g as int));
            assert(qd as int == d / (g as int));
            let si = sign as int;
            assert(si == sign_of(d));
            assert(qn as int * si == if si == -1 {
                -(qn as int)
            } else {
                qn as int
            }) by (nonlinear_arith)
                requires
                    si == -1 || si == 1,
            ;
            assert(qd as int * si == if si == -1 {
                -(qd as int)
            } else {
                qd as int
            }) by (nonlinear_arith)
                requires
                    si == -1 || si == 1,
            ;
            if d != 0 {
                assert(d / (g as int) != 0) by (nonlinear_arith)
                    requires
                        g as int >= 1,
                        (g as int) * (d / (g as int)) == d,
                        d != 0,
                ;
            }
        }
        Rational { num: qn * sign, denom: qd * sign }
    }

    /// Flips the sign of the numerator only; the denominator and the
    /// reduction state are untouched.
    pub fn neg(self) -> (r: Rational)
        requires
            self.num != isize::MIN,
        ensures
            r.num as int == -(self.num as int),
            r.denom == self.denom,
    {
        Rational { num: -self.num, denom: self.denom }
    }

    /// `(a/b) + (c/d) == (a*d + b*c) / (b*d)`, simplified.
    pub fn add(self, rhs: Rational) -> (r: Rational)
        requires
            in_isize(self.num as int * rhs.denom as int),
            in_isize(self.denom as int * rhs.num as int),
            in_isize(self.num as int * rhs.denom as int + self.denom as int * rhs.num as int),
            in_isize(self.denom as int * rhs.denom as int),
            simplify_ok(
                self.num as int * rhs.denom as int + self.denom as int * rhs.num as int,
                self.denom as int * rhs.denom as int,
            ),
        ensures
            r.num as int == reduced_num(
                self.num as int * rhs.denom as int + self.denom as int * rhs.num as int,
                self.denom as int * rhs.denom as int,
            ),
            r.denom as int == reduced_denom(
                self.num as int * rhs.denom as int + self.denom as int * rhs.num as int,
                self.denom as int * rhs.denom as int,
            ),
    {
        Rational {
            num: self.num * rhs.denom + self.denom * rhs.num,
            denom: self.denom * rhs.denom,
        }.simplify()
    }

    /// `(a/b) - (c/d) == (a*d - b*c) / (b*d)`, simplified.
    pub fn sub(self, rhs: Rational) -> (r: Rational)
        requires
            in_isize(self.num as int * rhs.denom as int),
            in_isize(self.denom as int * rhs.num as int),
            in_isize(self.num as int * rhs.denom as int - self.denom as int * rhs.num as int),
            in_isize(self.denom as int * rhs.denom as int),
            simplify_ok(
                self.num as int * rhs.denom as int - self.denom as int * rhs.num as int,
                self.denom as int * rhs.denom as int,
            ),
        ensures
            r.num as int == reduced_num(
                self.num as int * rhs.denom as int - self.denom as int * rhs.num as int,
                self.denom as int * rhs.denom as int,
            ),
            r.denom as int == reduced_denom(
                self.num as int * rhs.denom as int - self.denom as int * rhs.num as int,
                self.denom as int * rhs.denom as int,
            ),
    {
        Rational {
            num: self.num * rhs.denom - self.denom * rhs.num,
            denom: self.denom * rhs.denom,
        }.simplify()
    }

    /// `(a/b) * (c/d) == (a*c) / (b*d)`, simplified.
    pub fn mul(self, rhs: Rational) -> (r: Rational)
        requires
            in_isize(self.num as int * rhs.num as int),
            in_isize(self.denom as int * rhs.denom as int),
            simplify_ok(self.num as int * rhs.num as int, self.denom as int * rhs.denom as int),
        ensures
            r.num as int == reduced_num(
                self.num as int * rhs.num as int,
                self.denom as int * rhs.denom as int,
            ),
            r.denom as int == reduced_denom(
                self.num as int * rhs.num as int,
                self.denom as int * rhs.denom as int,
            ),
    {
        Rational { num: self.num * rhs.num, denom: self.denom * rhs.denom }.simplify()
    }

    /// `(a/b) / (c/d) == (a*d) / (b*c)`, simplified. No zero check on `c`:
    /// dividing by a zero-valued rational propagates a zero denominator into
    /// the result.
    pub fn div(self, rhs: Rational) -> (r: Rational)
        requires
            in_isize(self.num as int * rhs.denom as int),
            in_isize(self.denom as int * rhs.num as int),
            simplify_ok(self.num as int * rhs.denom as int, self.denom as int * rhs.num as int),
        ensures
            r.num as int == reduced_num(
                self.num as int * rhs.denom as int,
                self.denom as int * rhs.num as int,
            ),
            r.denom as int == reduced_denom(
                self.num as int * rhs.denom as int,
                self.denom as int * rhs.num as int,
            ),
    {
        Rational { num: self.num * rhs.denom, denom: self.denom * rhs.num }.simplify()
    }

    /// `(a/b) + k == (a + b*k) / b`, simplified.
    pub fn add_int(self, rhs: isize) -> (r: Rational)
        requires
            in_isize(self.denom as int * rhs as int),
            in_isize(self.num as int + self.denom as int * rhs as int),
            simplify_ok(self.num as int + self.denom as int * rhs as int, self.denom as int),
        ensures
            r.num as int == reduced_num(
                self.num as int + self.denom as int * rhs as int,
                self.denom as int,
            ),
            r.denom as int == reduced_denom(
                self.num as int + self.denom as int * rhs as int,
                self.denom as int,
            ),
    {
        Rational { num: self.num + self.denom * rhs, denom: self.denom }.simplify()
    }

    /// `(a/b) - k == (a - b*k) / b`, simplified.
    pub fn sub_int(self, rhs: isize) -> (r: Rational)
        requires
            in_isize(self.denom as int * rhs as int),
            in_isize(self.num as int - self.denom as int * rhs as int),
            simplify_ok(self.num as int - self.denom as int * rhs as int, self.denom as int),
        ensures
            r.num as int == reduced_num(
                self.num as int - self.denom as int * rhs as int,
                self.denom as int,
            ),
            r.denom as int == reduced_denom(
                self.num as int - self.denom as int * rhs as int,
                self.denom as int,
            ),
    {
        Rational { num: self.num - self.denom * rhs, denom: self.denom }.simplify()
    }

    /// `(a/b) * k == (a*k) / b`, simplified.
    pub fn mul_int(self, rhs: isize) -> (r: Rational)
        requires
            in_isize(self.num as int * rhs as int),
            simplify_ok(self.num as int * rhs as int, self.denom as int),
        ensures
            r.num as int == reduced_num(self.num as int * rhs as int, self.denom as int),
            r.denom as int == reduced_denom(self.num as int * rhs as int, self.denom as int),
    {
        Rational { num: self.num * rhs, denom: self.denom }.simplify()
    }

    /// `(a/b) / k == a / (b*k)`, simplified. No zero check on `k`.
    pub fn div_int(self, rhs: isize) -> (r: Rational)
        requires
            in_isize(self.denom as int * rhs as int),
            simplify_ok(self.num as int, self.denom as int * rhs as int),
        ensures
            r.num as int == reduced_num(self.num as int, self.denom as int * rhs as int),
            r.denom as int == reduced_denom(self.num as int, self.denom as int * rhs as int),
    {
        Rational { num: self.num, denom: self.denom * rhs }.simplify()
    }

    /// Equality between rationals: both operands are simplified independently
    /// and the reduced fields must match exactly.
    pub fn eq(&self, other: &Rational) -> (r: bool)
        requires
            simplify_ok(self.num as int, self.denom as int),
            simplify_ok(other.num as int, other.denom as int),
        ensures
            r == (reduced_num(self.num as int, self.denom as int) == reduced_num(
                other.num as int,
                other.denom as int,
            ) && reduced_denom(self.num as int, self.denom as int) == reduced_denom(
                other.num as int,
                other.denom as int,
            )),
    {
        let a = self.simplify();
        let b = other.simplify();
        a.num == b.num && a.denom == b.denom
    }

    /// Equality against an integer, by cross-multiplication on the raw
    /// fields: `k * b == a`. No simplification and no zero-denominator guard.
    pub fn eq_int(&self, other: isize) -> (r: bool)
        requires
            in_isize(other as int * self.denom as int),
        ensures
            r == (other as int * self.denom as int == self.num as int),
    {
        other * self.denom == self.num
    }

    /// Ordering between rationals: the sign of `(self - other)` decides, and
    /// a difference with a zero denominator and non-zero numerator is
    /// incomparable (`None`).
    pub fn partial_cmp(&self, other: &Rational) -> (r: Option<Ordering>)
        requires
            in_isize(self.num as int * other.denom as int),
            in_isize(self.denom as int * other.num as int),
            in_isize(self.num as int * other.denom as int - self.denom as int * other.num as int),
            in_isize(self.denom as int * other.denom as int),
            simplify_ok(
                self.num as int * other.denom as int - self.denom as int * other.num as int,
                self.denom as int * other.denom as int,
            ),
            in_isize(
                reduced_num(
                    self.num as int * other.denom as int - self.denom as int * other.num as int,
                    self.denom as int * other.denom as int,
                ) * reduced_denom(
                    self.num as int * other.denom as int - self.denom as int * other.num as int,
                    self.denom as int * other.denom as int,
                ),
            ),
        ensures
            r == order_of(
                reduced_num(
                    self.num as int * other.denom as int - self.denom as int * other.num as int,
                    self.denom as int * other.denom as int,
                ),
                reduced_denom(
                    self.num as int * other.denom as int - self.denom as int * other.num as int,
                    self.denom as int * other.denom as int,
                ),
            ),
    {
        let a = (*self).sub(*other);
        let p = a.num * a.denom;
        if p < 0 {
            Some(Ordering::Less)
        } else if p > 0 {
            Some(Ordering::Greater)
        } else if a.num == 0 {
            Some(Ordering::Equal)
        } else {
            None
        }
    }

    /// Ordering against an integer: the sign of `(self - k)` decides, as in
    /// `partial_cmp`.
    pub fn partial_cmp_int(&self, other: isize) -> (r: Option<Ordering>)
        requires
            in_isize(self.denom as int * other as int),
            in_isize(self.num as int - self.denom as int * other as int),
            simplify_ok(self.num as int - self.denom as int * other as int, self.denom as int),
            in_isize(
                reduced_num(self.num as int - self.denom as int * other as int, self.denom as int)
                    * reduced_denom(
                    self.num as int - self.denom as int * other as int,
                    self.denom as int,
                ),
            ),
        ensures
            r == order_of(
                reduced_num(self.num as int - self.denom as int * other as int, self.denom as int),
                reduced_denom(
                    self.num as int - self.denom as int * other as int,
                    self.denom as int,
                ),
            ),
    {
        let a = self.sub_int(other);
        let p = a.num * a.denom;
        if p < 0 {
            Some(Ordering::Less)
        } else if p > 0 {
            Some(Ordering::Greater)
        } else if a.num == 0 {
            Some(Ordering::Equal)
        } else {
            None
        }
    }
}

/// `k + (c/d) == (k*d + c) / d`, simplified.
pub fn int_add(lhs: isize, rhs: Rational) -> (r: Rational)
    requires
        in_isize(lhs as int * rhs.denom as int),
        in_isize(lhs as int * rhs.denom as int + rhs.num as int),
        simplify_ok(lhs as int * rhs.denom as int + rhs.num as int, rhs.denom as int),
    ensures
        r.num as int == reduced_num(lhs as int * rhs.denom as int + rhs.num as int, rhs.denom as int),
        r.denom as int == reduced_denom(
            lhs as int * rhs.denom as int + rhs.num as int,
            rhs.denom as int,
        ),
{
    Rational { num: lhs * rhs.denom + rhs.num, denom: rhs.denom }.simplify()
}

/// `k - (c/d) == (k*d - c) / d`, simplified.
pub fn int_sub(lhs: isize, rhs: Rational) -> (r: Rational)
    requires
        in_isize(lhs as int * rhs.denom as int),
        in_isize(lhs as int * rhs.denom as int - rhs.num as int),
        simplify_ok(lhs as int * rhs.denom as int - rhs.num as int, rhs.denom as int),
    ensures
        r.num as int == reduced_num(lhs as int * rhs.denom as int - rhs.num as int, rhs.denom as int),
        r.denom as int == reduced_denom(
            lhs as int * rhs.denom as int - rhs.num as int,
            rhs.denom as int,
        ),
{
    Rational { num: lhs * rhs.denom - rhs.num, denom: rhs.denom }.simplify()
}

/// `k * (c/d) == (k*c) / d`, simplified.
pub fn int_mul(lhs: isize, rhs: Rational) -> (r: Rational)
    requires
        in_isize(lhs as int * rhs.num as int),
        simplify_ok(lhs as int * rhs.num as int, rhs.denom as int),
    ensures
        r.num as int == reduced_num(lhs as int * rhs.num as int, rhs.denom as int),
        r.denom as int == reduced_denom(lhs as int * rhs.num as int, rhs.denom as int),
{
    Rational { num: lhs * rhs.num, denom: rhs.denom }.simplify()
}

/// `k / (c/d) == (k*d) / c`, simplified. No zero check on `c`.
pub fn int_div(lhs: isize, rhs: Rational) -> (r: Rational)
    requires
        in_isize(lhs as int * rhs.denom as int),
        simplify_ok(lhs as int * rhs.denom as int, rhs.num as int),
    ensures
        r.num as int == reduced_num(lhs as int * rhs.denom as int, rhs.num as int),
        r.denom as int == reduced_denom(lhs as int * rhs.denom as int, rhs.num as int),
{
    Rational { num: lhs * rhs.denom, denom: rhs.num }.simplify()
}

/// `k == (c/d)` by cross-multiplication on the raw fields: `k * d == c`.
pub fn int_eq(lhs: isize, rhs: &Rational) -> (r: bool)
    requires
        in_isize(lhs as int * rhs.denom as int),
    ensures
        r == (lhs as int * rhs.denom as int == rhs.num as int),
{
    lhs * rhs.denom == rhs.num
}

/// Ordering of an integer against a rational: the sign of `(k - rhs)`
/// decides, as in `Rational::partial_cmp`.
pub fn int_partial_cmp(lhs: isize, rhs: &Rational) -> (r: Option<Ordering>)
    requires
        in_isize(lhs as int * rhs.denom as int),
        in_isize(lhs as int * rhs.denom as int - rhs.num as int),
        simplify_ok(lhs as int * rhs.denom as int - rhs.num as int, rhs.denom as int),
        in_isize(
            reduced_num(lhs as int * rhs.denom as int - rhs.num as int, rhs.denom as int)
                * reduced_denom(lhs as int * rhs.denom as int - rhs.num as int, rhs.denom as int),
        ),
    ensures
        r == order_of(
            reduced_num(lhs as int * rhs.denom as int - rhs.num as int, rhs.denom as int),
            reduced_denom(lhs as int * rhs.denom as int - rhs.num as int, rhs.denom as int),
        ),
{
    let a = int_sub(lhs, *rhs);
    let p = a.num * a.denom;
    if p < 0 {
        Some(Ordering::Less)
    } else if p > 0 {
        Some(Ordering::Greater)
    } else if a.num == 0 {
        Some(Ordering::Equal)
    } else {
        None
    }
}

} // verus!
