use rustray::canvas::{Canvas, Color};
use rustray::fixed::Fixed;
use rustray::fuzzyeq::FuzzyEq;

fn n(v: f64) -> Fixed {
    Fixed::from_raw((v * 1_000_000.0).round() as i64)
}

#[test]
fn color_creation_test() {
    let col = Color::new(n(-0.5), n(0.4), n(1.7));
    assert!(col.r.fuzzy_eq(n(-0.5)));
    assert!(col.g.fuzzy_eq(n(0.4)));
    assert!(col.b.fuzzy_eq(n(1.7)));
}

#[test]
fn color_add_test() {
    let a = Color::new(n(0.9), n(0.6), n(0.75));
    let b = Color::new(n(0.7), n(0.1), n(0.25));
    let exp = Color::new(n(1.6), n(0.7), n(1.0));
    assert!(a.add(b).fuzzy_eq(exp));
}

#[test]
fn color_sub_test() {
    let a = Color::new(n(0.9), n(0.6), n(0.75));
    let b = Color::new(n(0.7), n(0.1), n(0.25));
    let exp = Color::new(n(0.2), n(0.5), n(0.5));
    assert!(a.sub(b).fuzzy_eq(exp));
}

#[test]
fn color_scalar_mul_test() {
    let c = Color::new(n(0.2), n(0.3), n(0.4));
    let m = n(2.0);
    let exp = Color::new(n(0.4), n(0.6), n(0.8));
    assert!(c.mul(m).fuzzy_eq(exp));
    assert!(m.mul_color(c).fuzzy_eq(exp));
}

#[test]
fn color_sum_is_not_clamped() {
    let a = Color::new(n(0.9), n(0.6), n(0.75));
    let b = Color::new(n(0.7), n(0.1), n(0.25));
    assert_eq!(a.add(b), Color::new(n(1.6), n(0.7), n(1.0)));
    assert_eq!(b.sub(a).r.raw, -200_000);
    assert_eq!(a.mul(n(2.0)).r.raw, 1_800_000);
}

#[test]
fn canvas_starts_black_and_keeps_writes() {
    let black = Color::new(n(0.0), n(0.0), n(0.0));
    let red = Color::new(n(1.0), n(0.0), n(0.0));
    let mut c = Canvas::new(10, 20);
    assert_eq!(c.width, 10);
    assert_eq!(c.height, 20);
    for y in 0..20 {
        for x in 0..10 {
            assert!(c.pixel_at(x, y).fuzzy_eq(black));
        }
    }
    c.write_pixel(2, 3, red);
    assert!(c.pixel_at(2, 3).fuzzy_eq(red));
    for y in 0..20 {
        for x in 0..10 {
            if (x, y) != (2, 3) {
                assert!(c.pixel_at(x, y).fuzzy_eq(black));
            }
        }
    }
}
