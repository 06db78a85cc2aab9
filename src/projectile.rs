use crate::datastruct::{fx, Tuple};
use crate::fixed::{fits, mul_i64, mul_raw, tdiv, Fixed, SCALE};
use vstd::prelude::*;

verus! {

/// Length of one simulation step in raw units: a hundredth.
pub const TIME_STEP: i64 = 10_000;

/// A body in flight: where it is and how fast it moves.
#[derive(Debug, Clone, Copy)]
pub struct Projectile {
    pub position: Tuple,
    pub velocity: Tuple,
}

/// The forces acting on every projectile.
#[derive(Debug, Clone, Copy)]
pub struct Environment {
    pub wind: Tuple,
    pub gravity: Tuple,
}

/// Raw position component after one step.
pub open spec fn moved(p: Fixed, v: Fixed) -> int {
    p.raw + mul_raw(v.raw as int, TIME_STEP as int)
}

/// Raw velocity component after one step.
pub open spec fn accelerated(v: Fixed, g: Fixed, w: Fixed) -> int {
    v.raw + g.raw + w.raw
}

/// Every component of the next state fits in an `i64`.
pub open spec fn tick_in_range(env: Environment, p: Projectile) -> bool {
    &&& fits(moved(p.position.x, p.velocity.x))
    &&& fits(moved(p.position.y, p.velocity.y))
    &&& fits(moved(p.position.z, p.velocity.z))
    &&& fits(moved(p.position.w, p.velocity.w))
    &&& fits(p.velocity.x.raw + env.gravity.x.raw)
    &&& fits(p.velocity.y.raw + env.gravity.y.raw)
    &&& fits(p.velocity.z.raw + env.gravity.z.raw)
    &&& fits(p.velocity.w.raw + env.gravity.w.raw)
    &&& fits(accelerated(p.velocity.x, env.gravity.x, env.wind.x))
    &&& fits(accelerated(p.velocity.y, env.gravity.y, env.wind.y))
    &&& fits(accelerated(p.velocity.z, env.gravity.z, env.wind.z))
    &&& fits(accelerated(p.velocity.w, env.gravity.w, env.wind.w))
}

/// The state after one step: the position moves by the velocity times the step,
/// and the velocity gains gravity and wind.
pub open spec fn tick_spec(env: Environment, p: Projectile) -> Projectile {
    Projectile {
        position: Tuple {
            x: fx(moved(p.position.x, p.velocity.x)),
            y: fx(moved(p.position.y, p.velocity.y)),
            z: fx(moved(p.position.z, p.velocity.z)),
            w: fx(moved(p.position.w, p.velocity.w)),
        },
        velocity: Tuple {
            x: fx(accelerated(p.velocity.x, env.gravity.x, env.wind.x)),
            y: fx(accelerated(p.velocity.y, env.gravity.y, env.wind.y)),
            z: fx(accelerated(p.velocity.z, env.gravity.z, env.wind.z)),
            w: fx(accelerated(p.velocity.w, env.gravity.w, env.wind.w)),
        },
    }
}

impl Projectile {
    pub fn new(position: Tuple, velocity: Tuple) -> (r: Projectile)
        ensures
            r.position == position,
            r.velocity == velocity,
    {
        Projectile { position, velocity }
    }
}

impl Environment {
    pub fn new(wind: Tuple, gravity: Tuple) -> (r: Environment)
        ensures
            r.wind == wind,
            r.gravity == gravity,
    {
        Environment { wind, gravity }
    }
}

/// Advances the projectile by one step.
pub fn tick(env: Environment, proj: &mut Projectile)
    requires
        tick_in_range(env, *old(proj)),
    ensures
        *final(proj) == tick_spec(env, *old(proj)),
{
    let step = Fixed { raw: TIME_STEP };
    proof {
        lemma_step_shrinks(proj.velocity.x.raw as int);
        lemma_step_shrinks(proj.velocity.y.raw as int);
        lemma_step_shrinks(proj.velocity.z.raw as int);
        lemma_step_shrinks(proj.velocity.w.raw as int);
    }
    proj.position = proj.position.add(proj.velocity.mul(step));
    proj.velocity = proj.velocity.add(env.gravity).add(env.wind);
}

/// Advances the projectile by one step where every component of the next state fits in an
/// `i64`, and reports whether it did; otherwise the projectile is left as it was.
pub fn try_tick(env: Environment, proj: &mut Projectile) -> (ok: bool)
    ensures
        ok == tick_in_range(env, *old(proj)),
        ok ==> *final(proj) == tick_spec(env, *old(proj)),
        !ok ==> *final(proj) == *old(proj),
{
    let p = proj.position;
    let v = proj.velocity;
    let g = env.gravity;
    let w = env.wind;
    let ok = fits_moved(p.x, v.x) && fits_moved(p.y, v.y) && fits_moved(p.z, v.z) && fits_moved(
        p.w,
        v.w,
    ) && fits_accelerated(v.x, g.x, w.x) && fits_accelerated(v.y, g.y, w.y) && fits_accelerated(
        v.z,
        g.z,
        w.z,
    ) && fits_accelerated(v.w, g.w, w.w);
    if ok {
        tick(env, proj);
    }
    ok
}

/// Whether a mathematical value held in an `i128` fits in an `i64`.
fn fits_i128(v: i128) -> (r: bool)
    ensures
        r == fits(v as int),
{
    i64::MIN as i128 <= v && v <= i64::MAX as i128
}

/// Whether a position component after one step fits in an `i64`.
fn fits_moved(p: Fixed, v: Fixed) -> (r: bool)
    ensures
        r == fits(moved(p, v)),
{
    fits_i128(p.raw as i128 + mul_i64(v.raw, TIME_STEP))
}

/// Whether a velocity component after one step, and the sum on the way to it, fit in an `i64`.
fn fits_accelerated(v: Fixed, g: Fixed, w: Fixed) -> (r: bool)
    ensures
        r == (fits(v.raw + g.raw) && fits(accelerated(v, g, w))),
{
    fits_i128(v.raw as i128 + g.raw as i128) && fits_i128(
        v.raw as i128 + g.raw as i128 + w.raw as i128,
    )
}

/// Scaling by the time step never makes a value larger.
proof fn lemma_step_shrinks(v: int)
    requires
        fits(v),
    ensures
        fits(mul_raw(v, TIME_STEP as int)),
{
    let p = v * TIME_STEP;
    let a = if p < 0 { -p } else { p };
    let av = if v < 0 { -v } else { v };
    assert(a == av * 10_000) by (nonlinear_arith)
        requires
            p == v * 10_000,
            a == (if p < 0 { -p } else { p }),
            av == (if v < 0 { -v } else { v }),
    ;
    assert(a / 1_000_000 <= av) by (nonlinear_arith)
        requires
            a == av * 10_000,
            av >= 0,
    ;
    assert(-av <= tdiv(p, SCALE as int) <= av);
}

} // verus!
