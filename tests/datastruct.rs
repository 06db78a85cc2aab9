use rustray::datastruct::Tuple;
use rustray::fixed::Fixed;
use rustray::fuzzyeq::FuzzyEq;

fn n(v: f64) -> Fixed {
    Fixed::from_raw((v * 1_000_000.0).round() as i64)
}

#[test]
fn point_create_test() {
    let pt = Tuple::point(n(4.3), n(-4.2), n(3.1));
    assert!(pt.x.fuzzy_eq(n(4.3)));
    assert!(pt.y.fuzzy_eq(n(-4.2)));
    assert!(pt.z.fuzzy_eq(n(3.1)));
    assert!(pt.w.fuzzy_eq(n(1.0)));
    assert!(pt.is_point());
    assert!(!pt.is_vector());
}

#[test]
fn vector_create_test() {
    let pt = Tuple::vector(n(4.3), n(-4.2), n(3.1));
    assert!(pt.x.fuzzy_eq(n(4.3)));
    assert!(pt.y.fuzzy_eq(n(-4.2)));
    assert!(pt.z.fuzzy_eq(n(3.1)));
    assert!(pt.w.fuzzy_eq(n(0.0)));
    assert!(!pt.is_point());
    assert!(pt.is_vector());
}

#[test]
fn point_creates_tuple_test() {
    let pt = Tuple::point(n(4.0), n(-4.0), n(3.0));
    let expected = Tuple::new(n(4.0), n(-4.0), n(3.0), n(1.0));
    assert!(pt.fuzzy_eq(expected));
}

#[test]
fn vector_creates_tuple_test() {
    let pt = Tuple::vector(n(4.0), n(-4.0), n(3.0));
    let expected = Tuple::new(n(4.0), n(-4.0), n(3.0), n(0.0));
    assert!(pt.fuzzy_eq(expected));
}

#[test]
fn tuple_add_test() {
    let a = Tuple::point(n(3.0), n(-2.0), n(5.0));
    let b = Tuple::vector(n(-2.0), n(3.0), n(1.0));
    let act = a.add(b);
    let exp = Tuple::point(n(1.0), n(1.0), n(6.0));
    assert!(act.fuzzy_eq(exp));
}

#[test]
fn tuple_sub_test() {
    let a = Tuple::point(n(1.0), n(1.0), n(6.0));
    let b = Tuple::point(n(3.0), n(-2.0), n(5.0));
    let exp = Tuple::vector(n(-2.0), n(3.0), n(1.0));
    let act = a.sub(b);
    assert!(act.fuzzy_eq(exp));
}

#[test]
fn sub_vec_pt_test() {
    let a = Tuple::point(n(3.0), n(2.0), n(1.0));
    let b = Tuple::vector(n(5.0), n(6.0), n(7.0));
    assert!(a.sub(b).fuzzy_eq(Tuple::point(n(-2.0), n(-4.0), n(-6.0))));
}

#[test]
fn tuple_negative_test() {
    let a = Tuple::vector(n(3.0), n(2.0), n(1.0));
    let exp = Tuple::new(n(-3.0), n(-2.0), n(-1.0), n(0.0));
    assert!(a.neg().fuzzy_eq(exp));
    assert!(a.neg().is_vector());
}

#[test]
fn multiplying_tuple_with_scalar_test() {
    let a = Tuple::new(n(1.0), n(-2.0), n(3.0), n(-4.0));
    let m = n(3.5);
    let expected = Tuple::new(n(3.5), n(-7.0), n(10.5), n(-14.0));
    assert!(a.mul(m).fuzzy_eq(expected));
    assert!(m.mul_tuple(a).fuzzy_eq(expected));
}

#[test]
fn multiplying_tuple_with_fraction_test() {
    let a = Tuple::new(n(1.0), n(-2.0), n(3.0), n(-4.0));
    let m = n(0.5);
    let expected = Tuple::new(n(0.5), n(-1.0), n(1.5), n(-2.0));
    assert!(a.mul(m).fuzzy_eq(expected));
    assert!(m.mul_tuple(a).fuzzy_eq(expected));
}

#[test]
fn divide_tuple_by_scalar_test() {
    let a = Tuple::new(n(1.0), n(-2.0), n(3.0), n(-4.0));
    let d = n(2.0);
    let expected = Tuple::new(n(0.5), n(-1.0), n(1.5), n(-2.0));
    assert!(a.div(d).fuzzy_eq(expected));
}

#[test]
fn magnitude_test() {
    let a = Tuple::vector(n(1.0), n(0.0), n(0.0));
    assert!(a.magnitude().fuzzy_eq(n(1.0)));
    let a = Tuple::vector(n(0.0), n(1.0), n(0.0));
    assert!(a.magnitude().fuzzy_eq(n(1.0)));
    let a = Tuple::vector(n(0.0), n(0.0), n(1.0));
    assert!(a.magnitude().fuzzy_eq(n(1.0)));
    let a = Tuple::vector(n(1.0), n(2.0), n(3.0));
    assert!(a.magnitude().fuzzy_eq(n(f64::sqrt(14.0))));
    let a = Tuple::vector(n(-1.0), n(-2.0), n(3.0));
    assert!(a.magnitude().fuzzy_eq(n(f64::sqrt(14.0))));
}

#[test]
fn tuple_normalization_test() {
    let a = Tuple::vector(n(4.0), n(0.0), n(0.0));
    let exp = Tuple::vector(n(1.0), n(0.0), n(0.0));
    assert!(a.normalize().fuzzy_eq(exp));
    let a = Tuple::vector(n(1.0), n(2.0), n(3.0));
    let exp = Tuple::vector(n(0.26726), n(0.53452), n(0.80178));
    assert!(a.normalize().fuzzy_eq(exp));
}

#[test]
fn magnitude_of_normalized_vector_is_one_test() {
    let a = Tuple::vector(n(1.0), n(2.0), n(3.0));
    assert!(a.normalize().magnitude().fuzzy_eq(n(1.0)));
}

#[test]
fn dot_product_tuple_test() {
    let a = Tuple::vector(n(1.0), n(2.0), n(3.0));
    let b = Tuple::vector(n(2.0), n(3.0), n(4.0));
    assert!(a.dot(b).fuzzy_eq(n(20.0)));
}

#[test]
fn cross_product_test() {
    let a = Tuple::vector(n(1.0), n(2.0), n(3.0));
    let b = Tuple::vector(n(2.0), n(3.0), n(4.0));
    let e1 = Tuple::vector(n(-1.0), n(2.0), n(-1.0));
    let e2 = Tuple::vector(n(1.0), n(-2.0), n(1.0));
    assert!(a.cross(b).fuzzy_eq(e1));
    assert!(b.cross(a).fuzzy_eq(e2));
}

#[test]
fn dot_is_commutative_on_values() {
    let a = Tuple::new(n(1.5), n(-2.25), n(0.125), n(1.0));
    let b = Tuple::new(n(-3.0), n(0.5), n(8.0), n(2.0));
    assert_eq!(a.dot(b), b.dot(a));
    assert_eq!(a.dot(b).raw, -4_500_000 - 1_125_000 + 1_000_000 + 2_000_000);
}

#[test]
fn cross_is_anticommutative_on_values() {
    let a = Tuple::vector(n(1.5), n(-2.0), n(3.0));
    let b = Tuple::vector(n(0.5), n(4.0), n(-1.0));
    assert_eq!(a.cross(b), b.cross(a).neg());
    assert_eq!(a.cross(b), Tuple::vector(n(-10.0), n(3.0), n(7.0)));
}

#[test]
fn point_and_vector_arithmetic_classification() {
    let p = Tuple::point(n(1.0), n(2.0), n(3.0));
    let q = Tuple::point(n(-4.0), n(0.5), n(9.0));
    let v = Tuple::vector(n(0.0), n(-1.0), n(2.0));
    let u = Tuple::vector(n(3.0), n(3.0), n(3.0));
    assert!(p.sub(q).is_vector());
    assert!(p.add(v).is_point());
    assert!(v.add(u).is_vector());
    let pp = p.add(q);
    assert_eq!(pp.w.raw, 2_000_000);
    assert!(!pp.is_point());
    assert!(!pp.is_vector());
}

#[test]
fn normalized_vectors_have_unit_magnitude() {
    let vs = [
        Tuple::vector(n(4.0), n(0.0), n(0.0)),
        Tuple::vector(n(-7.5), n(2.0), n(0.25)),
        Tuple::vector(n(1000.0), n(-3000.0), n(2.5)),
        Tuple::vector(n(0.3), n(-0.4), n(0.0)),
        Tuple::vector(n(0.01), n(0.02), n(0.03)),
        Tuple::vector(n(0.000001), n(0.000001), n(0.0)),
        Tuple::vector(n(0.000001), n(0.000002), n(0.000003)),
    ];
    for v in vs {
        assert!(v.normalize().magnitude().fuzzy_eq(n(1.0)));
    }
}

#[test]
fn scalar_products_truncate_toward_zero() {
    assert_eq!(Fixed::from_raw(3).mul(Fixed::from_raw(500_000)).raw, 1);
    assert_eq!(Fixed::from_raw(-3).mul(Fixed::from_raw(500_000)).raw, -1);
    assert_eq!(Fixed::from_raw(1).div(Fixed::from_raw(3_000_000)).raw, 0);
    assert_eq!(Fixed::from_int(7).div(Fixed::from_int(-2)).raw, -3_500_000);
    assert_eq!(Fixed::from_int(-3).raw, -3_000_000);
}

#[test]
fn short_vectors_normalize_to_their_direction() {
    let v = Tuple::vector(n(0.000001), n(0.000001), n(0.0));
    let u = v.normalize();
    assert!(u.is_vector());
    assert!(u.fuzzy_eq(Tuple::vector(n(0.707106), n(0.707106), n(0.0))));
    let v = Tuple::vector(n(0.000003), n(0.0), n(-0.000004));
    assert_eq!(v.normalize(), Tuple::vector(n(0.6), n(0.0), n(-0.8)));
}

#[test]
fn normalizing_a_tiny_w_gives_a_unit_w() {
    let v = Tuple::new(n(0.0), n(0.0), n(0.0), Fixed::from_raw(9));
    assert!(v.is_vector());
    let u = v.normalize();
    assert_eq!(u.w.raw, 1_000_000);
    assert!(!u.is_vector());
    assert_eq!(u, Tuple::new(n(0.0), n(0.0), n(0.0), n(1.0)));
}
