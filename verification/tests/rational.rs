use jqsh::rational::Rational;
use jqsh::value::Value;

#[test]
fn construction_reduces_to_lowest_terms() {
    let r = Rational::new(2, 4).unwrap();
    assert_eq!(r.num, 1);
    assert_eq!(r.den, 2);

    let r = Rational::new(6, 1).unwrap();
    assert_eq!(r.num, 6);
    assert_eq!(r.den, 1);

    let r = Rational::new(-9, 6).unwrap();
    assert_eq!(r.num, -3);
    assert_eq!(r.den, 2);

    let r = Rational::new(9, -6).unwrap();
    assert_eq!(r.num, -3);
    assert_eq!(r.den, 2);

    let r = Rational::new(0, 5).unwrap();
    assert_eq!(r.num, 0);
    assert_eq!(r.den, 1);
}

#[test]
fn zero_denominator_is_rejected() {
    assert!(Rational::new(1, 0).is_none());
    assert!(Rational::new(0, 0).is_none());
}

#[test]
fn multiplication_is_exact_and_reduced() {
    let three = Rational::from_int(3);
    let two = Rational::from_int(2);
    let p = three.mul(two).unwrap();
    assert_eq!(p.num, 6);
    assert_eq!(p.den, 1);

    let half = Rational::new(1, 2).unwrap();
    let two_thirds = Rational::new(2, 3).unwrap();
    let p = half.mul(two_thirds).unwrap();
    assert_eq!(p.num, 1);
    assert_eq!(p.den, 3);
}

#[test]
fn multiplication_overflow_is_reported() {
    let big = Rational::from_int(i64::MAX);
    assert!(big.mul(big).is_none());
}

#[test]
fn numbers_render_in_exact_form() {
    assert_eq!(Value::Number(Rational::from_int(6)).to_display_string(), "6");
    assert_eq!(Value::Number(Rational::from_int(-3)).to_display_string(), "-3");
    assert_eq!(Value::Number(Rational::new(1, 2).unwrap()).to_display_string(), "1/2");
    assert_eq!(Value::Number(Rational::new(-10, 4).unwrap()).to_display_string(), "-5/2");
}
