use rustray::datastruct::Tuple;
use rustray::fixed::Fixed;
use rustray::projectile::{tick, try_tick, Environment, Projectile};

fn n(v: f64) -> Fixed {
    Fixed::from_raw((v * 1_000_000.0).round() as i64)
}

#[test]
fn tick_moves_and_accelerates() {
    let env = Environment::new(
        Tuple::vector(n(-0.01), n(0.0), n(0.0)),
        Tuple::vector(n(0.0), n(-9.8), n(0.0)),
    );
    let mut ball = Projectile::new(
        Tuple::point(n(0.0), n(20.0), n(0.0)),
        Tuple::vector(n(10.0), n(0.0), n(0.0)),
    );
    tick(env, &mut ball);
    assert_eq!(ball.position, Tuple::point(n(0.1), n(20.0), n(0.0)));
    assert_eq!(ball.velocity, Tuple::vector(n(9.99), n(-9.8), n(0.0)));
    tick(env, &mut ball);
    assert_eq!(ball.position, Tuple::point(n(0.1999), n(19.902), n(0.0)));
    assert_eq!(ball.velocity, Tuple::vector(n(9.98), n(-19.6), n(0.0)));
}

#[test]
fn try_tick_refuses_overflow_and_keeps_state() {
    let env = Environment::new(
        Tuple::vector(n(0.0), n(0.0), n(0.0)),
        Tuple::vector(Fixed::from_raw(1), n(0.0), n(0.0)),
    );
    let start = Projectile::new(
        Tuple::point(n(0.0), n(0.0), n(0.0)),
        Tuple::vector(Fixed::from_raw(i64::MAX), n(0.0), n(0.0)),
    );
    let mut ball = start;
    assert!(!try_tick(env, &mut ball));
    assert_eq!(ball.position, start.position);
    assert_eq!(ball.velocity, start.velocity);
    let mut ok_ball = Projectile::new(
        Tuple::point(n(1.0), n(2.0), n(3.0)),
        Tuple::vector(n(100.0), n(0.0), n(-50.0)),
    );
    assert!(try_tick(env, &mut ok_ball));
    assert_eq!(ok_ball.position, Tuple::point(n(2.0), n(2.0), n(2.5)));
}
