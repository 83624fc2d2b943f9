use easy_shell_core::text::ParseError;
use easy_shell_core::Fraction;
use std::cmp::Ordering;

fn parse(s: &str) -> Fraction {
    Fraction::from_str(s).unwrap()
}

#[test]
fn new() {
    assert_eq!(Fraction::new(1, 2), Fraction::new(2, 4))
}

#[test]
fn display() {
    assert_eq!("0", Fraction::zero().to_string());
    assert_eq!("1", Fraction::one().to_string());
    assert_eq!("1/2", Fraction::new(1, 2).to_string());
}

#[test]
fn from_str() {
    let a = parse("0");
    assert_eq!(a, Fraction::zero());
    let a = Fraction::from_str("1").unwrap();
    assert_eq!(a, Fraction::one());
    let a = Fraction::from_str("-1 / 2").unwrap();
    assert_eq!(a, Fraction::new(-1, 2));
}

#[test]
fn add() {
    let a = Fraction::from_str("-1/2").unwrap();
    let a1 = Fraction::from_str("1/2").unwrap();
    assert_eq!(a.add(&a1), Fraction::zero());
}

#[test]
fn sub() {
    let a = Fraction::from_str("1/3").unwrap();
    let a1 = Fraction::from_str("1/3").unwrap();
    assert_eq!(a.subtract(&a1), Fraction::zero());
}

#[test]
fn mul() {
    let a = Fraction::from_str("1/2").unwrap();
    let a1 = Fraction::from_str("2").unwrap();
    assert_eq!(a.multiply(&a1), Fraction::one());
}

#[test]
fn div() {
    let a = Fraction::from_str("1/2").unwrap();
    let a1 = Fraction::from_str("1/2").unwrap();
    assert_eq!(a.divide(&a1), Fraction::one());
}

#[test]
fn ord() {
    let a = Fraction::from_str("2").unwrap();
    let b = Fraction::from_str("1").unwrap();
    assert!(a.compare(&b) == Ordering::Greater);
    assert!(b.compare(&a) == Ordering::Less);
    assert_eq!(b, Fraction::one());
}

#[test]
fn new_canonical_form() {
    assert_eq!(Fraction::new(6, -4), Fraction::new(-3, 2));
    assert_eq!(Fraction::new(-6, -4).to_string(), "3/2");
    assert_eq!(Fraction::new(0, -7), Fraction::zero());
    assert_eq!(Fraction::new(0, -7).to_string(), "0");
    assert_eq!(Fraction::new(10, 5).to_string(), "2");
    assert_eq!(Fraction::new(i64::MAX, i64::MAX), Fraction::one());
}

#[test]
fn predicates() {
    let h = Fraction::new(-1, 2);
    assert!(h.is_negative() && !h.is_positive() && !h.is_zero() && !h.is_int());
    let t = Fraction::new(4, 2);
    assert!(t.is_positive() && t.is_int());
    assert!(Fraction::zero().is_zero());
}

#[test]
fn opposite_and_reverse() {
    let a = Fraction::new(3, 4);
    assert_eq!(a.opposite(), Fraction::new(-3, 4));
    assert_eq!(a.reverse(), Fraction::new(4, 3));
    assert_eq!(Fraction::new(-3, 4).reverse(), Fraction::new(-4, 3));
    assert_eq!(a.opposite().to_string(), "-3/4");
}

#[test]
fn add_opposite_is_zero() {
    for (n, d) in [(3, 4), (-7, 5), (0, 1), (9, 1)] {
        let a = Fraction::new(n, d);
        assert_eq!(a.add(&a.opposite()), Fraction::zero());
    }
}

#[test]
fn multiply_reverse_is_one() {
    for (n, d) in [(3, 4), (-7, 5), (9, 1)] {
        let a = Fraction::new(n, d);
        assert_eq!(a.multiply(&a.reverse()), Fraction::one());
    }
}

#[test]
fn arithmetic_values() {
    let a = Fraction::new(1, 3);
    let b = Fraction::new(1, 6);
    assert_eq!(a.add(&b), Fraction::new(1, 2));
    assert_eq!(a.subtract(&b), Fraction::new(1, 6));
    assert_eq!(a.multiply(&b), Fraction::new(1, 18));
    assert_eq!(a.divide(&b), Fraction::new(2, 1));
    assert_eq!(b.subtract(&a).to_string(), "-1/6");
}

#[test]
fn order_total_and_transitive() {
    let a = Fraction::new(-1, 2);
    let b = Fraction::new(1, 3);
    let c = Fraction::new(1, 2);
    assert_eq!(a.compare(&b), Ordering::Less);
    assert_eq!(b.compare(&c), Ordering::Less);
    assert_eq!(a.compare(&c), Ordering::Less);
    assert_eq!(c.compare(&a), Ordering::Greater);
    assert_eq!(Fraction::new(2, 4).compare(&c), Ordering::Equal);
    assert_eq!(Fraction::new(2, 1).compare(&Fraction::new(1, 1)), Ordering::Greater);
    assert!(a.lt(&c) && !c.lt(&a));
    assert_eq!(a.min(&c), a);
    assert_eq!(a.max(&c), c);
}

#[test]
fn compare_near_limits() {
    let big = Fraction::new(i64::MAX, 1);
    let small = Fraction::new(-i64::MAX, 1);
    assert_eq!(small.compare(&big), Ordering::Less);
    assert_eq!(Fraction::new(i64::MAX - 1, i64::MAX).compare(&Fraction::one()), Ordering::Less);
}

#[test]
fn parse_scenarios() {
    assert_eq!(parse("-1/2"), Fraction::new(-1, 2));
    assert_eq!(parse(""), Fraction::zero());
    assert_eq!(parse("   "), Fraction::zero());
    assert_eq!(parse("6/2/3"), Fraction::new(1, 1));
    assert_eq!(parse(" +4 / -6 "), Fraction::new(-2, 3));
    assert_eq!(parse("-9223372036854775807"), Fraction::new(-i64::MAX, 1));
}

#[test]
fn parse_errors() {
    assert_eq!(Fraction::from_str("x"), Err(ParseError::MalformedInteger));
    assert_eq!(Fraction::from_str("1/"), Err(ParseError::MalformedInteger));
    assert_eq!(Fraction::from_str("1/2a"), Err(ParseError::MalformedInteger));
    assert_eq!(Fraction::from_str("-"), Err(ParseError::MalformedInteger));
    assert_eq!(Fraction::from_str("9223372036854775808"), Err(ParseError::MalformedInteger));
    assert_eq!(Fraction::from_str("1/0"), Err(ParseError::DivisionByZero));
    assert_eq!(Fraction::from_str("1/0/x"), Err(ParseError::MalformedInteger));
    assert_eq!(Fraction::from_str("-9223372036854775808"), Err(ParseError::OutOfRange));
    assert_eq!(
        Fraction::from_str("1/4294967296/4294967296"),
        Err(ParseError::OutOfRange)
    );
}

#[test]
fn default_is_zero() {
    assert_eq!(Fraction::default(), Fraction::zero());
}
