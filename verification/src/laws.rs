//! Laws of simplification: the reduced form of a fraction with a non-zero
//! denominator has a positive denominator, and reducing it again changes
//! nothing. Both are stated over the same spec functions that
//! `Rational::simplify`'s contract uses, so they carry over to the executable
//! code directly.

use crate::gcd::{
    abs_int, divides, gcd_int, lemma_divides_abs, lemma_divides_intro, lemma_exact_div,
    lemma_exact_div_signed, lemma_gcd_divides, lemma_gcd_int_sign, lemma_gcd_quotients_coprime,
    lemma_gcd_zero,
};
use crate::rational::{order_of, reduced_denom, reduced_num, sign_of, simplify_ok};
use core::cmp::Ordering;
use vstd::prelude::*;

verus! {

/// `simplify` always yields a positive denominator when the input denominator
/// is non-zero: dividing by the (positive) gcd keeps the denominator's sign,
/// and the sign fold then makes it positive.
pub proof fn lemma_reduced_denom_pos(n: int, d: int)
    requires
        d != 0,
    ensures
        reduced_denom(n, d) >= 1,
{
    let g = gcd_int(n, d);
    lemma_gcd_zero(abs_int(n), abs_int(d));
    lemma_gcd_divides(abs_int(n), abs_int(d));
    lemma_divides_abs(g, abs_int(d) as int);
    assert(divides(g, d));
    lemma_exact_div_signed(d, g);
    let q = d / g;
    assert(q != 0) by (nonlinear_arith)
        requires
            g >= 1,
            g * q == d,
            d != 0,
    ;
    let s = sign_of(d);
    if d < 0 {
        assert(q * s >= 1) by (nonlinear_arith)
            requires
                s == -1,
                q < 0,
        ;
    } else {
        assert(q * s >= 1) by (nonlinear_arith)
            requires
                s == 1,
                q > 0,
        ;
    }
}

/// `simplify` is idempotent: for every fraction with a non-zero denominator,
/// reducing the already reduced fraction changes neither field. After one
/// reduction the fields are coprime and the denominator is positive, so the
/// second reduction divides by one and folds in a positive sign.
pub proof fn lemma_simplify_idempotent(n: int, d: int)
    requires
        d != 0,
    ensures
        reduced_num(reduced_num(n, d), reduced_denom(n, d)) == reduced_num(n, d),
        reduced_denom(reduced_num(n, d), reduced_denom(n, d)) == reduced_denom(n, d),
        simplify_ok(n, d) ==> simplify_ok(reduced_num(n, d), reduced_denom(n, d)),
{
    let g = gcd_int(n, d);
    let s = sign_of(d);
    let n1 = reduced_num(n, d);
    let d1 = reduced_denom(n, d);
    lemma_reduced_denom_pos(n, d);
    lemma_gcd_int_sign(n / g, d / g, s);
    lemma_gcd_quotients_coprime(n, d);
    assert(gcd_int(n1, d1) == 1);
    assert(n1 == 1 * n1);
    lemma_divides_intro(1, n1, n1);
    lemma_exact_div(n1, 1);
    assert(d1 == 1 * d1);
    lemma_divides_intro(1, d1, d1);
    lemma_exact_div(d1, 1);
    assert(sign_of(d1) == 1);
}

/// Reduction preserves the value of the fraction: the reduced pair and the
/// input pair agree under cross-multiplication.
pub proof fn lemma_simplify_preserves_value(n: int, d: int)
    requires
        n != 0 || d != 0,
    ensures
        reduced_num(n, d) * d == n * reduced_denom(n, d),
{
    let g = gcd_int(n, d);
    let s = sign_of(d);
    lemma_gcd_zero(abs_int(n), abs_int(d));
    lemma_gcd_divides(abs_int(n), abs_int(d));
    lemma_divides_abs(g, abs_int(n) as int);
    lemma_divides_abs(g, abs_int(d) as int);
    assert(divides(g, n));
    assert(divides(g, d));
    lemma_exact_div(n, g);
    lemma_exact_div(d, g);
    assert((n / g * s) * d == n * (d / g * s)) by (nonlinear_arith)
        requires
            g * (n / g) == n,
            g * (d / g) == d,
    ;
}

/// For fractions with positive denominators, the subtraction-based comparison
/// agrees with the order of the cross products: `a/b` against `c/d` compares
/// as `a*d` against `b*c`.
pub proof fn lemma_order_matches_cross_products(a: int, b: int, c: int, d: int)
    requires
        b > 0,
        d > 0,
    ensures
        order_of(reduced_num(a * d - b * c, b * d), reduced_denom(a * d - b * c, b * d)) == (if a
            * d < b * c {
            Some(Ordering::Less)
        } else if a * d > b * c {
            Some(Ordering::Greater)
        } else {
            Some(Ordering::Equal)
        }),
{
    let x = a * d - b * c;
    let y = b * d;
    assert(b * d > 0) by (nonlinear_arith)
        requires
            b > 0,
            d > 0,
    ;
    let g = gcd_int(x, y);
    lemma_gcd_zero(abs_int(x), abs_int(y));
    lemma_gcd_divides(abs_int(x), abs_int(y));
    lemma_divides_abs(g, abs_int(x) as int);
    lemma_divides_abs(g, abs_int(y) as int);
    assert(divides(g, x));
    assert(divides(g, y));
    lemma_exact_div_signed(x, g);
    lemma_exact_div_signed(y, g);
    let dn = x / g;
    let dd = y / g;
    assert(sign_of(y) == 1);
    assert(reduced_num(x, y) == dn * 1);
    assert(reduced_denom(x, y) == dd * 1);
    assert(dn * 1 == dn) by (nonlinear_arith);
    assert(dd * 1 == dd) by (nonlinear_arith);
    assert(dd > 0) by (nonlinear_arith)
        requires
            g >= 1,
            g * dd == y,
            y > 0,
    ;
    assert(x < 0 ==> dn * dd < 0) by (nonlinear_arith)
        requires
            g >= 1,
            g * dn == x,
            dd > 0,
    ;
    assert(x > 0 ==> dn * dd > 0) by (nonlinear_arith)
        requires
            g >= 1,
            g * dn == x,
            dd > 0,
    ;
    assert(x == 0 ==> dn == 0 && dn * dd == 0) by (nonlinear_arith)
        requires
            g >= 1,
            g * dn == x,
    ;
}

} // verus!
