use rustray::datastruct::Tuple;
use rustray::fixed::Fixed;
use rustray::fuzzyeq::FuzzyEq;

fn n(v: f64) -> Fixed {
    Fixed::from_raw((v * 1_000_000.0).round() as i64)
}

#[test]
fn fuzzy_f64_equality_test() {
    let actual = n(0.001);
    let expected = n(0.001);
    assert!(actual.fuzzy_eq(expected));
}

#[test]
fn fuzzy_f64_inequality_test() {
    let actual = n(0.000001);
    let expected = n(0.0001);
    assert!(actual.fuzzy_ne(expected));
}

#[test]
fn tuple_feq_test() {
    let actual = Tuple::point(n(1.000), n(2.0), n(3.0));
    let expected = Tuple::point(n(1.000), n(2.0), n(3.0));
    assert!(actual.fuzzy_eq(expected));
}

#[test]
fn fuzzy_eq_bound_is_strict() {
    let a = Fixed::from_raw(100);
    assert!(a.fuzzy_eq(Fixed::from_raw(109)));
    assert!(a.fuzzy_eq(Fixed::from_raw(91)));
    assert!(a.fuzzy_ne(Fixed::from_raw(110)));
    assert!(a.fuzzy_ne(Fixed::from_raw(90)));
    assert!(a.fuzzy_eq(a));
}

#[test]
fn fuzzy_eq_is_not_transitive() {
    let a = Fixed::from_raw(0);
    let b = Fixed::from_raw(9);
    let c = Fixed::from_raw(18);
    assert!(a.fuzzy_eq(b));
    assert!(b.fuzzy_eq(c));
    assert!(a.fuzzy_ne(c));
}

#[test]
fn fuzzy_eq_on_extreme_values() {
    assert!(Fixed::from_raw(i64::MIN).fuzzy_ne(Fixed::from_raw(i64::MAX)));
    assert!(Fixed::from_raw(i64::MAX).fuzzy_eq(Fixed::from_raw(i64::MAX - 9)));
}
