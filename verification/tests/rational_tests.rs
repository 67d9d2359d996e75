use core::cmp::Ordering;
use rational::Rational;

#[test]
fn test_new() {
    let r = Rational::new(4, 6);
    assert_eq!(r.num, 4);
    assert_eq!(r.denom, 6);
}

#[test]
fn test_simplify() {
    let r = Rational::new(4, 6).simplify();
    assert_eq!(r.num, 2);
    assert_eq!(r.denom, 3);
}

#[test]
fn test_to_f64() {
    let r = Rational::new(1, 2);
    assert_eq!(r.num as f64 / r.denom as f64, 0.5);
}

#[test]
fn test_display() {
    let r = Rational::new(4, 6).simplify();
    assert_eq!(r.render(), "2/3");
}

#[test]
fn test_neg() {
    let r = Rational::new(2, 3).neg();
    assert_eq!(r.num, -2);
    assert_eq!(r.denom, 3);
}

#[test]
fn test_add() {
    let r1 = Rational::new(1, 3);
    let r2 = Rational::new(1, 6);
    assert!(r1.add(r2).eq(&Rational::new(1, 2)));
}

#[test]
fn test_sub() {
    let r1 = Rational::new(1, 2);
    let r2 = Rational::new(1, 6);
    assert!(r1.sub(r2).eq(&Rational::new(1, 3)));
}

#[test]
fn test_mul() {
    let r1 = Rational::new(2, 3);
    let r2 = Rational::new(3, 4);
    assert!(r1.mul(r2).eq(&Rational::new(1, 2)));
}

#[test]
fn test_div() {
    let r1 = Rational::new(2, 3);
    let r2 = Rational::new(3, 4);
    assert!(r1.div(r2).eq(&Rational::new(8, 9)));
}

#[test]
fn test_partial_eq() {
    let r1 = Rational::new(2, 4);
    let r2 = Rational::new(1, 2);
    assert!(r1.eq(&r2));
}

#[test]
fn test_partial_ord() {
    let r1 = Rational::new(1, 3);
    let r2 = Rational::new(1, 2);
    assert_eq!(r1.partial_cmp(&r2), Some(Ordering::Less));
}

#[test]
fn test_simplify_idempotent() {
    let once = Rational::new(-9, 12).simplify();
    let twice = once.simplify();
    assert_eq!(once.num, twice.num);
    assert_eq!(once.denom, twice.denom);
    assert_eq!(once.num, -3);
    assert_eq!(once.denom, 4);
}

#[test]
fn test_simplify_negative_denominator() {
    let r = Rational::new(3, -6).simplify();
    assert_eq!(r.num, -1);
    assert_eq!(r.denom, 2);
}

#[test]
fn test_simplify_zero_numerator() {
    let r = Rational::new(0, -5).simplify();
    assert_eq!(r.num, 0);
    assert_eq!(r.denom, 1);
}

#[test]
fn test_simplify_zero_denominator() {
    // simplify reduces and fixes sign but does not repair a zero denominator
    let r = Rational::new(-4, 0).simplify();
    assert_eq!(r.num, -1);
    assert_eq!(r.denom, 0);
}

#[test]
fn test_render_negative() {
    let r = Rational::new(-4, 6).simplify();
    assert_eq!(r.render(), "-2/3");
}

#[test]
fn test_render_raw_fields() {
    // rendering never simplifies on its own
    let r = Rational::new(4, 6);
    assert_eq!(r.render(), "4/6");
}

#[test]
fn test_add_int() {
    let r = Rational::new(1, 3).add_int(1);
    assert_eq!(r.num, 4);
    assert_eq!(r.denom, 3);
}

#[test]
fn test_int_add() {
    let r = rational::int_add(1, Rational::new(1, 3));
    assert_eq!(r.num, 4);
    assert_eq!(r.denom, 3);
}

#[test]
fn test_sub_int() {
    let r = Rational::new(7, 2).sub_int(3);
    assert_eq!(r.num, 1);
    assert_eq!(r.denom, 2);
}

#[test]
fn test_int_sub() {
    let r = rational::int_sub(1, Rational::new(1, 3));
    assert_eq!(r.num, 2);
    assert_eq!(r.denom, 3);
}

#[test]
fn test_mul_int() {
    let r = Rational::new(1, 6).mul_int(3);
    assert_eq!(r.num, 1);
    assert_eq!(r.denom, 2);
}

#[test]
fn test_int_mul() {
    let r = rational::int_mul(3, Rational::new(1, 6));
    assert_eq!(r.num, 1);
    assert_eq!(r.denom, 2);
}

#[test]
fn test_div_int() {
    let r = Rational::new(4, 3).div_int(2);
    assert_eq!(r.num, 2);
    assert_eq!(r.denom, 3);
}

#[test]
fn test_int_div() {
    let r = rational::int_div(2, Rational::new(3, 4));
    assert_eq!(r.num, 8);
    assert_eq!(r.denom, 3);
}

#[test]
fn test_eq_int() {
    assert!(Rational::new(4, 2).eq_int(2));
    assert!(!Rational::new(5, 2).eq_int(2));
}

#[test]
fn test_int_eq() {
    assert!(rational::int_eq(2, &Rational::new(4, 2)));
    assert!(!rational::int_eq(2, &Rational::new(5, 2)));
}

#[test]
fn test_partial_cmp_int() {
    let r = Rational::new(1, 2);
    assert_eq!(r.partial_cmp_int(1), Some(Ordering::Less));
    assert_eq!(r.partial_cmp_int(0), Some(Ordering::Greater));
}

#[test]
fn test_int_partial_cmp() {
    let r = Rational::new(1, 2);
    assert_eq!(rational::int_partial_cmp(1, &r), Some(Ordering::Greater));
    assert_eq!(rational::int_partial_cmp(0, &r), Some(Ordering::Less));
}

#[test]
fn test_partial_cmp_equal() {
    let r1 = Rational::new(2, 4);
    let r2 = Rational::new(1, 2);
    assert_eq!(r1.partial_cmp(&r2), Some(Ordering::Equal));
}

#[test]
fn test_incomparable() {
    // the difference (1/0) - (0/1) has a zero denominator and a non-zero
    // numerator: neither less, greater nor equal
    let r1 = Rational::new(1, 0);
    let r2 = Rational::new(0, 1);
    assert_eq!(r1.partial_cmp(&r2), None);
}

#[test]
fn test_zero_denominator_propagation() {
    // dividing by a zero-valued rational does not raise; the result's
    // denominator becomes 0 and the float view is non-finite
    let r = Rational::new(1, 2).div(Rational::new(0, 5));
    assert_eq!(r.denom, 0);
    let f = r.num as f64 / r.denom as f64;
    assert!(!f.is_finite());
}

#[test]
fn test_gcd_of_negatives() {
    let r = Rational::new(-8, -12).simplify();
    assert_eq!(r.num, 2);
    assert_eq!(r.denom, 3);
}
