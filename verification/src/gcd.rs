//! Divisibility and the greatest common divisor: the mathematical model that
//! `Rational::simplify` is specified against, together with the one call into
//! the `num` crate that computes the gcd at run time.

use vstd::arithmetic::div_mod::{lemma_fundamental_div_mod, lemma_fundamental_div_mod_converse};
use vstd::prelude::*;

verus! {

/// `c` divides `n`.
pub open spec fn divides(c: int, n: int) -> bool {
    exists|k: int| n == #[trigger] (c * k)
}

/// Magnitude of an integer.
pub open spec fn abs_int(n: int) -> nat {
    if n < 0 {
        (-n) as nat
    } else {
        n as nat
    }
}

/// Greatest common divisor of two natural numbers, by Euclid's recursion.
pub open spec fn gcd_nat(a: nat, b: nat) -> nat
    decreases b,
{
    if b == 0 {
        a
    } else {
        gcd_nat(b, a % b)
    }
}

/// Greatest common divisor of the magnitudes of two integers.
pub open spec fn gcd_int(a: int, b: int) -> int {
    gcd_nat(abs_int(a), abs_int(b)) as int
}

/// Relies on `num::integer::gcd`: the greatest common divisor of the two
/// arguments, always non-negative (the crate computes it by Stein's algorithm,
/// which agrees with Euclid's recursion on the magnitudes). On inputs whose
/// mathematical gcd does not fit in `isize` the crate's `.abs()` call panics;
/// the precondition rules those inputs out.
#[verifier::external_body]
pub(crate) fn gcd_isize(a: isize, b: isize) -> (r: isize)
    requires
        gcd_int(a as int, b as int) <= isize::MAX as int,
    ensures
        r as int == gcd_int(a as int, b as int),
{
    num::integer::gcd(a, b)
}

/// An equation `n == c * k` witnesses that `c` divides `n`.
pub proof fn lemma_divides_intro(c: int, n: int, k: int)
    requires
        n == c * k,
    ensures
        divides(c, n),
{
    assert(n == c * k);
}

/// Divisibility is insensitive to the sign of the dividend.
pub proof fn lemma_divides_abs(c: int, n: int)
    requires
        divides(c, n),
    ensures
        divides(c, -n),
        divides(c, abs_int(n) as int),
{
    let k = choose|k: int| n == #[trigger] (c * k);
    assert(-n == c * (-k)) by (nonlinear_arith)
        requires
            n == c * k,
    ;
    lemma_divides_intro(c, -n, -k);
}

/// A positive divisor of a non-zero integer is no larger than its magnitude.
pub proof fn lemma_divides_bound(c: int, n: int)
    requires
        divides(c, n),
        c > 0,
        n != 0,
    ensures
        c <= abs_int(n),
{
    let k = choose|k: int| n == #[trigger] (c * k);
    assert(c <= abs_int(n)) by (nonlinear_arith)
        requires
            n == c * k,
            c > 0,
            n != 0,
            abs_int(n) == if n < 0 {
                -n
            } else {
                n
            },
    ;
}

/// The gcd divides both of its arguments.
pub proof fn lemma_gcd_divides(a: nat, b: nat)
    ensures
        divides(gcd_nat(a, b) as int, a as int),
        divides(gcd_nat(a, b) as int, b as int),
    decreases b,
{
    if b == 0 {
        assert(a as int == (a as int) * 1);
        assert(0int == (a as int) * 0);
        lemma_divides_intro(a as int, a as int, 1);
        lemma_divides_intro(a as int, 0, 0);
    } else {
        lemma_gcd_divides(b, a % b);
        let g = gcd_nat(b, a % b) as int;
        let k1 = choose|k: int| b as int == #[trigger] (g * k);
        let k2 = choose|k: int| (a % b) as int == #[trigger] (g * k);
        lemma_fundamental_div_mod(a as int, b as int);
        let q = (a as int) / (b as int);
        assert(a as int == g * (k1 * q + k2)) by (nonlinear_arith)
            requires
                a as int == (b as int) * q + ((a % b) as int),
                b as int == g * k1,
                (a % b) as int == g * k2,
        ;
        lemma_divides_intro(g, a as int, k1 * q + k2);
    }
}

/// Every common divisor of the two arguments divides their gcd.
pub proof fn lemma_gcd_greatest(a: nat, b: nat, c: int)
    requires
        divides(c, a as int),
        divides(c, b as int),
    ensures
        divides(c, gcd_nat(a, b) as int),
    decreases b,
{
    if b == 0 {
    } else {
        lemma_fundamental_div_mod(a as int, b as int);
        let q = (a as int) / (b as int);
        let ka = choose|k: int| a as int == #[trigger] (c * k);
        let kb = choose|k: int| b as int == #[trigger] (c * k);
        assert((a % b) as int == c * (ka - kb * q)) by (nonlinear_arith)
            requires
                (a % b) as int == a as int - (b as int) * q,
                a as int == c * ka,
                b as int == c * kb,
        ;
        lemma_divides_intro(c, (a % b) as int, ka - kb * q);
        lemma_gcd_greatest(b, a % b, c);
    }
}

/// The gcd is zero exactly when both arguments are zero.
pub proof fn lemma_gcd_zero(a: nat, b: nat)
    ensures
        gcd_nat(a, b) == 0 <==> (a == 0 && b == 0),
{
    lemma_gcd_divides(a, b);
    if gcd_nat(a, b) == 0 {
        let k1 = choose|k: int| a as int == #[trigger] (0 * k);
        let k2 = choose|k: int| b as int == #[trigger] (0 * k);
        assert(0 * k1 == 0) by (nonlinear_arith);
        assert(0 * k2 == 0) by (nonlinear_arith);
    }
}

/// Dividing by a positive exact divisor is exact: the quotient times the
/// divisor gives back the dividend, and the remainder is zero.
pub proof fn lemma_exact_div(n: int, g: int)
    requires
        g > 0,
        divides(g, n),
    ensures
        g * (n / g) == n,
        n % g == 0,
{
    let k = choose|k: int| n == #[trigger] (g * k);
    assert(n == k * g + 0) by (nonlinear_arith)
        requires
            n == g * k,
    ;
    lemma_fundamental_div_mod_converse(n, g, k, 0);
    assert(g * (n / g) == n) by (nonlinear_arith)
        requires
            n / g == k,
            n == g * k,
    ;
}

/// Exact division by a positive divisor behaves the same on the negated
/// dividend, keeps the dividend's sign, and cannot grow the magnitude. These
/// facts connect Rust's truncating `/` on `isize` with the Euclidean `/` of
/// the specification: the two agree whenever the division is exact.
pub proof fn lemma_exact_div_signed(n: int, g: int)
    requires
        g >= 1,
        divides(g, n),
    ensures
        g * (n / g) == n,
        (-n) / g == -(n / g),
        n >= 0 ==> n / g >= 0,
        n < 0 ==> n / g < 0,
        abs_int(n / g) <= abs_int(n),
{
    lemma_exact_div(n, g);
    lemma_divides_abs(g, n);
    lemma_exact_div(-n, g);
    assert((-n) / g == -(n / g)) by (nonlinear_arith)
        requires
            g >= 1,
            g * (n / g) == n,
            g * ((-n) / g) == -n,
    ;
    assert(n >= 0 ==> n / g >= 0) by (nonlinear_arith)
        requires
            g >= 1,
            g * (n / g) == n,
    ;
    assert(n < 0 ==> n / g < 0) by (nonlinear_arith)
        requires
            g >= 1,
            g * (n / g) == n,
    ;
    assert(abs_int(n / g) <= abs_int(n)) by (nonlinear_arith)
        requires
            g >= 1,
            g * (n / g) == n,
            abs_int(n) == if n < 0 {
                -n
            } else {
                n
            },
            abs_int(n / g) == if n / g < 0 {
                -(n / g)
            } else {
                n / g
            },
    ;
}

/// The gcd of the magnitudes is unchanged by multiplying both integers by a
/// common sign.
pub proof fn lemma_gcd_int_sign(a: int, b: int, s: int)
    requires
        s == 1 || s == -1,
    ensures
        gcd_int(a * s, b * s) == gcd_int(a, b),
{
    if s == 1 {
        assert(a * 1 == a) by (nonlinear_arith);
        assert(b * 1 == b) by (nonlinear_arith);
    } else {
        assert(a * -1 == -a) by (nonlinear_arith);
        assert(b * -1 == -b) by (nonlinear_arith);
        assert(abs_int(-a) == abs_int(a));
        assert(abs_int(-b) == abs_int(b));
    }
}

/// Once both integers are divided by their gcd, no common divisor above one
/// is left: the quotients are coprime.
pub proof fn lemma_gcd_quotients_coprime(n: int, d: int)
    requires
        n != 0 || d != 0,
    ensures
        gcd_int(n / gcd_int(n, d), d / gcd_int(n, d)) == 1,
{
    let a = abs_int(n);
    let b = abs_int(d);
    let g = gcd_int(n, d);
    lemma_gcd_zero(a, b);
    lemma_gcd_divides(a, b);
    lemma_divides_abs(g, a as int);
    lemma_divides_abs(g, b as int);
    // g divides n and d themselves, whatever their signs
    assert(divides(g, n));
    assert(divides(g, d));
    let n1 = n / g;
    let d1 = d / g;
    lemma_exact_div(n, g);
    lemma_exact_div(d, g);
    let c = gcd_int(n1, d1);
    lemma_gcd_zero(abs_int(n1), abs_int(d1));
    if n != 0 {
        assert(n1 != 0) by (nonlinear_arith)
            requires
                g * n1 == n,
                n != 0,
        ;
    } else {
        assert(d1 != 0) by (nonlinear_arith)
            requires
                g * d1 == d,
                d != 0,
        ;
    }
    assert(c >= 1);
    lemma_gcd_divides(abs_int(n1), abs_int(d1));
    lemma_divides_abs(c, abs_int(n1) as int);
    lemma_divides_abs(c, abs_int(d1) as int);
    assert(divides(c, n1));
    assert(divides(c, d1));
    let kn = choose|k: int| n1 == #[trigger] (c * k);
    let kd = choose|k: int| d1 == #[trigger] (c * k);
    assert(n == (c * g) * kn) by (nonlinear_arith)
        requires
            g * n1 == n,
            n1 == c * kn,
    ;
    assert(d == (c * g) * kd) by (nonlinear_arith)
        requires
            g * d1 == d,
            d1 == c * kd,
    ;
    lemma_divides_intro(c * g, n, kn);
    lemma_divides_intro(c * g, d, kd);
    lemma_divides_abs(c * g, n);
    lemma_divides_abs(c * g, d);
    lemma_gcd_greatest(a, b, c * g);
    assert(c * g > 0) by (nonlinear_arith)
        requires
            c >= 1,
            g >= 1,
    ;
    lemma_divides_bound(c * g, g);
    assert(abs_int(g) == g);
    assert(c == 1) by (nonlinear_arith)
        requires
            c >= 1,
            g >= 1,
            c * g <= g,
    ;
}

} // verus!
