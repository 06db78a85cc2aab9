use crate::fixed::{
    abs, div_i64, div_raw, fits, lemma_i64_product, mul_i64, mul_raw, near, Fixed, EPSILON, SCALE,
};
use vstd::prelude::*;

verus! {

/// Extra resolution for the magnitude of short vectors during normalization.
pub const FINE: i64 = 1_000_000;

/// Bound on the sum of squares that `magnitude` accepts: its root then fits in an `i64`.
pub const NORM_SQ_LIMIT: u128 = 0x4000_0000_0000_0000_0000_0000_0000_0000;

/// The fixed-point number whose raw value is `v`.
pub open spec fn fx(v: int) -> Fixed {
    Fixed { raw: v as i64 }
}

/// `r` is the whole square root of `n`, rounded down.
pub open spec fn is_sqrt_floor(r: int, n: int) -> bool {
    0 <= r && r * r <= n < (r + 1) * (r + 1)
}

/// The whole square root of `n`, rounded down.
pub open spec fn sqrt_floor(n: int) -> int {
    choose|r: int| is_sqrt_floor(r, n)
}

/// A homogeneous coordinate: a point when `w` is one, a vector when `w` is zero.
#[derive(Debug, Clone, Copy, PartialEq, Eq, Structural)]
pub struct Tuple {
    pub x: Fixed,
    pub y: Fixed,
    pub z: Fixed,
    pub w: Fixed,
}

impl Tuple {
    /// `w` is fuzzy-equal to one.
    pub open spec fn is_point_spec(self) -> bool {
        near(self.w.raw as int, SCALE as int)
    }

    /// `w` is fuzzy-equal to zero.
    pub open spec fn is_vector_spec(self) -> bool {
        near(self.w.raw as int, 0)
    }

    /// Component-wise sum.
    pub open spec fn add_spec(self, o: Tuple) -> Tuple {
        Tuple {
            x: fx(self.x.raw + o.x.raw),
            y: fx(self.y.raw + o.y.raw),
            z: fx(self.z.raw + o.z.raw),
            w: fx(self.w.raw + o.w.raw),
        }
    }

    /// Component-wise difference.
    pub open spec fn sub_spec(self, o: Tuple) -> Tuple {
        Tuple {
            x: fx(self.x.raw - o.x.raw),
            y: fx(self.y.raw - o.y.raw),
            z: fx(self.z.raw - o.z.raw),
            w: fx(self.w.raw - o.w.raw),
        }
    }

    /// Component-wise negation.
    pub open spec fn neg_spec(self) -> Tuple {
        Tuple { x: fx(-self.x.raw), y: fx(-self.y.raw), z: fx(-self.z.raw), w: fx(-self.w.raw) }
    }

    /// Every component scaled by `m`.
    pub open spec fn mul_spec(self, m: Fixed) -> Tuple {
        Tuple {
            x: fx(mul_raw(self.x.raw as int, m.raw as int)),
            y: fx(mul_raw(self.y.raw as int, m.raw as int)),
            z: fx(mul_raw(self.z.raw as int, m.raw as int)),
            w: fx(mul_raw(self.w.raw as int, m.raw as int)),
        }
    }

    /// Every component divided by `d`.
    pub open spec fn div_spec(self, d: Fixed) -> Tuple {
        Tuple {
            x: fx(div_raw(self.x.raw as int, d.raw as int)),
            y: fx(div_raw(self.y.raw as int, d.raw as int)),
            z: fx(div_raw(self.z.raw as int, d.raw as int)),
            w: fx(div_raw(self.w.raw as int, d.raw as int)),
        }
    }

    /// Sum of the squares of all four raw components.
    pub open spec fn norm_sq(self) -> int {
        self.x.raw * self.x.raw + self.y.raw * self.y.raw + self.z.raw * self.z.raw + self.w.raw
            * self.w.raw
    }

    /// Raw value of the Euclidean norm over all four components.
    pub open spec fn magnitude_spec(self) -> int {
        sqrt_floor(self.norm_sq())
    }

    /// Raw value of the Euclidean norm of the components scaled by `q`: the magnitude
    /// at `q` times the resolution.
    pub open spec fn scaled_magnitude(self, q: int) -> int {
        sqrt_floor(self.norm_sq() * (q * q))
    }

    /// The components scaled by `q`, each divided by the magnitude taken at `q` times the
    /// resolution.
    pub open spec fn normalize_by(self, q: int) -> Tuple {
        let m = self.scaled_magnitude(q);
        Tuple {
            x: fx(div_raw(self.x.raw * q, m)),
            y: fx(div_raw(self.y.raw * q, m)),
            z: fx(div_raw(self.z.raw * q, m)),
            w: fx(div_raw(self.w.raw * q, m)),
        }
    }

    /// The tuple divided by its magnitude. A magnitude below one is taken at a resolution
    /// `FINE` times finer, so that it keeps enough digits.
    pub open spec fn normalize_spec(self) -> Tuple {
        if self.magnitude_spec() >= SCALE {
            self.normalize_by(1)
        } else {
            self.normalize_by(FINE as int)
        }
    }

    /// Raw value of the sum of the pairwise products of the components.
    pub open spec fn dot_spec(self, o: Tuple) -> int {
        mul_raw(self.x.raw as int, o.x.raw as int) + mul_raw(self.y.raw as int, o.y.raw as int)
            + mul_raw(self.z.raw as int, o.z.raw as int) + mul_raw(self.w.raw as int, o.w.raw as int)
    }

    /// Raw components of the three-dimensional cross product.
    pub open spec fn cross_x(self, b: Tuple) -> int {
        mul_raw(self.y.raw as int, b.z.raw as int) - mul_raw(self.z.raw as int, b.y.raw as int)
    }

    pub open spec fn cross_y(self, b: Tuple) -> int {
        mul_raw(self.z.raw as int, b.x.raw as int) - mul_raw(self.x.raw as int, b.z.raw as int)
    }

    pub open spec fn cross_z(self, b: Tuple) -> int {
        mul_raw(self.x.raw as int, b.y.raw as int) - mul_raw(self.y.raw as int, b.x.raw as int)
    }

    /// The vector given by the cross product of the `x`, `y` and `z` parts.
    pub open spec fn cross_spec(self, b: Tuple) -> Tuple {
        Tuple {
            x: fx(self.cross_x(b)),
            y: fx(self.cross_y(b)),
            z: fx(self.cross_z(b)),
            w: fx(0),
        }
    }

    pub fn new(x: Fixed, y: Fixed, z: Fixed, w: Fixed) -> (r: Tuple)
        ensures
            r == (Tuple { x, y, z, w }),
    {
        Tuple { x, y, z, w }
    }

    pub fn point(x: Fixed, y: Fixed, z: Fixed) -> (r: Tuple)
        ensures
            r == (Tuple { x, y, z, w: fx(SCALE as int) }),
    {
        Tuple { x, y, z, w: Fixed { raw: SCALE } }
    }

    pub fn vector(x: Fixed, y: Fixed, z: Fixed) -> (r: Tuple)
        ensures
            r == (Tuple { x, y, z, w: fx(0) }),
    {
        Tuple { x, y, z, w: Fixed { raw: 0 } }
    }

    pub fn is_point(&self) -> (r: bool)
        ensures
            r == self.is_point_spec(),
    {
        let d: i128 = (self.w.raw as i128) - (SCALE as i128);
        -(EPSILON as i128) < d && d < EPSILON as i128
    }

    pub fn is_vector(&self) -> (r: bool)
        ensures
            r == self.is_vector_spec(),
    {
        -EPSILON < self.w.raw && self.w.raw < EPSILON
    }

    /// Component-wise sum.
    pub fn add(self, o: Tuple) -> (r: Tuple)
        requires
            fits(self.x.raw + o.x.raw),
            fits(self.y.raw + o.y.raw),
            fits(self.z.raw + o.z.raw),
            fits(self.w.raw + o.w.raw),
        ensures
            r == self.add_spec(o),
    {
        Tuple {
            x: self.x.add(o.x),
            y: self.y.add(o.y),
            z: self.z.add(o.z),
            w: self.w.add(o.w),
        }
    }

    /// Component-wise difference.
    pub fn sub(self, o: Tuple) -> (r: Tuple)
        requires
            fits(self.x.raw - o.x.raw),
            fits(self.y.raw - o.y.raw),
            fits(self.z.raw - o.z.raw),
            fits(self.w.raw - o.w.raw),
        ensures
            r == self.sub_spec(o),
    {
        Tuple {
            x: self.x.sub(o.x),
            y: self.y.sub(o.y),
            z: self.z.sub(o.z),
            w: self.w.sub(o.w),
        }
    }

    /// Component-wise negation.
    pub fn neg(self) -> (r: Tuple)
        requires
            self.x.raw > i64::MIN,
            self.y.raw > i64::MIN,
            self.z.raw > i64::MIN,
            self.w.raw > i64::MIN,
        ensures
            r == self.neg_spec(),
    {
        Tuple { x: self.x.neg(), y: self.y.neg(), z: self.z.neg(), w: self.w.neg() }
    }

    /// Every component, `w` included, scaled by `m`.
    pub fn mul(self, m: Fixed) -> (r: Tuple)
        requires
            fits(mul_raw(self.x.raw as int, m.raw as int)),
            fits(mul_raw(self.y.raw as int, m.raw as int)),
            fits(mul_raw(self.z.raw as int, m.raw as int)),
            fits(mul_raw(self.w.raw as int, m.raw as int)),
        ensures
            r == self.mul_spec(m),
    {
        Tuple { x: self.x.mul(m), y: self.y.mul(m), z: self.z.mul(m), w: self.w.mul(m) }
    }

    /// Every component, `w` included, divided by `d`.
    pub fn div(self, d: Fixed) -> (r: Tuple)
        requires
            d.raw != 0,
            fits(div_raw(self.x.raw as int, d.raw as int)),
            fits(div_raw(self.y.raw as int, d.raw as int)),
            fits(div_raw(self.z.raw as int, d.raw as int)),
            fits(div_raw(self.w.raw as int, d.raw as int)),
        ensures
            r == self.div_spec(d),
    {
        Tuple { x: self.x.div(d), y: self.y.div(d), z: self.z.div(d), w: self.w.div(d) }
    }

    /// Euclidean norm over all four components; only vectors have one.
    pub fn magnitude(&self) -> (r: Fixed)
        requires
            self.is_vector_spec(),
            self.norm_sq() < NORM_SQ_LIMIT,
        ensures
            r.raw == self.magnitude_spec(),
            is_sqrt_floor(r.raw as int, self.norm_sq()),
    {
        let n = self.norm_sq_exec();
        let r = sqrt_floor_u128(n);
        proof {
            lemma_sqrt_floor_unique(r as int, self.norm_sq());
        }
        Fixed { raw: r as i64 }
    }

    /// Sum of the squares of the raw components, as long as it stays under the limit.
    fn norm_sq_exec(&self) -> (r: u128)
        requires
            self.norm_sq() < NORM_SQ_LIMIT,
        ensures
            r == self.norm_sq(),
    {
        let xx = square(self.x.raw);
        let yy = square(self.y.raw);
        let zz = square(self.z.raw);
        let ww = square(self.w.raw);
        xx + yy + zz + ww
    }

    /// The tuple of the same direction with magnitude one; only nonzero vectors have one.
    pub fn normalize(&self) -> (r: Tuple)
        requires
            self.is_vector_spec(),
            self.norm_sq() < NORM_SQ_LIMIT,
            self.norm_sq() > 0,
        ensures
            r == self.normalize_spec(),
            r.norm_sq() < NORM_SQ_LIMIT,
            near(r.magnitude_spec(), SCALE as int),
            self.w.raw == 0 || self.magnitude_spec() >= SCALE ==> r.is_vector_spec(),
    {
        proof {
            lemma_normalized_magnitude(*self);
        }
        let m = self.magnitude();
        let ghost n = self.norm_sq();
        proof {
            lemma_square_nonneg(self.x.raw as int);
            lemma_square_nonneg(self.y.raw as int);
            lemma_square_nonneg(self.z.raw as int);
            lemma_square_nonneg(self.w.raw as int);
            lemma_sqrt_floor_exists(n * (FINE * FINE));
        }
        if m.raw >= SCALE {
            proof {
                lemma_component_over_norm(self.x.raw as int, m.raw as int, n);
                lemma_component_over_norm(self.y.raw as int, m.raw as int, n);
                lemma_component_over_norm(self.z.raw as int, m.raw as int, n);
                lemma_component_over_norm(self.w.raw as int, m.raw as int, n);
                assert(n * (1 * 1) == n);
            }
            self.div(m)
        } else {
            proof {
                assert(n < 1_000_000_000_000) by (nonlinear_arith)
                    requires
                        n < (m.raw + 1) * (m.raw + 1),
                        0 <= m.raw < 1_000_000,
                ;
            }
            let fine_n: u128 = self.norm_sq_exec() * ((FINE as u128) * (FINE as u128));
            let fm = sqrt_floor_u128(fine_n);
            proof {
                lemma_sqrt_floor_unique(fm as int, n * (FINE * FINE));
                assert(fm >= SCALE) by (nonlinear_arith)
                    requires
                        n >= 1,
                        fm * fm <= n * 1_000_000_000_000 < (fm + 1) * (fm + 1),
                ;
                let (x, y, z, w) = (
                    self.x.raw as int,
                    self.y.raw as int,
                    self.z.raw as int,
                    self.w.raw as int,
                );
                let q = FINE as int;
                lemma_scaled_sum(x, y, z, w, q);
                lemma_unit_length(x * q, y * q, z * q, w * q, fm as int);
            }
            let d = fm as i64;
            Tuple {
                x: Fixed { raw: self.fine_div(self.x.raw, d) },
                y: Fixed { raw: self.fine_div(self.y.raw, d) },
                z: Fixed { raw: self.fine_div(self.z.raw, d) },
                w: Fixed { raw: self.fine_div(self.w.raw, d) },
            }
        }
    }

    /// One component `c` of this short vector, at `FINE` times the resolution, divided by
    /// the magnitude `d` taken at that resolution.
    fn fine_div(&self, c: i64, d: i64) -> (r: i64)
        requires
            self.norm_sq() < 1_000_000_000_000,
            c * c <= self.norm_sq(),
            d == self.scaled_magnitude(FINE as int),
            d >= SCALE,
            fits(div_raw(c * FINE, d as int)),
        ensures
            r == div_raw(c * FINE, d as int),
    {
        assert(-1_000_000 <= c <= 1_000_000) by (nonlinear_arith)
            requires
                c * c < 1_000_000_000_000,
        ;
        let cq: i64 = c * FINE;
        div_i64(cq, d) as i64
    }

    /// Sum of the pairwise products of all four components.
    pub fn dot(&self, other: Tuple) -> (r: Fixed)
        requires
            fits(self.dot_spec(other)),
        ensures
            r.raw == self.dot_spec(other),
    {
        let s: i128 = mul_i64(self.x.raw, other.x.raw) + mul_i64(self.y.raw, other.y.raw) + mul_i64(
            self.z.raw,
            other.z.raw,
        ) + mul_i64(self.w.raw, other.w.raw);
        Fixed { raw: s as i64 }
    }

    /// Cross product of the `x`, `y` and `z` parts of two vectors.
    pub fn cross(&self, b: Tuple) -> (r: Tuple)
        requires
            self.is_vector_spec(),
            b.is_vector_spec(),
            fits(self.cross_x(b)),
            fits(self.cross_y(b)),
            fits(self.cross_z(b)),
        ensures
            r == self.cross_spec(b),
    {
        let x: i128 = mul_i64(self.y.raw, b.z.raw) - mul_i64(self.z.raw, b.y.raw);
        let y: i128 = mul_i64(self.z.raw, b.x.raw) - mul_i64(self.x.raw, b.z.raw);
        let z: i128 = mul_i64(self.x.raw, b.y.raw) - mul_i64(self.y.raw, b.x.raw);
        Tuple::vector(Fixed { raw: x as i64 }, Fixed { raw: y as i64 }, Fixed { raw: z as i64 })
    }
}

impl Fixed {
    /// Every component of `t`, `w` included, scaled by this number.
    pub fn mul_tuple(self, t: Tuple) -> (r: Tuple)
        requires
            fits(mul_raw(t.x.raw as int, self.raw as int)),
            fits(mul_raw(t.y.raw as int, self.raw as int)),
            fits(mul_raw(t.z.raw as int, self.raw as int)),
            fits(mul_raw(t.w.raw as int, self.raw as int)),
        ensures
            r == t.mul_spec(self),
    {
        t.mul(self)
    }
}

/// A tuple made by `point` is a point and not a vector.
pub proof fn lemma_point_is_point(x: Fixed, y: Fixed, z: Fixed)
    ensures
        (Tuple { x, y, z, w: fx(SCALE as int) }).is_point_spec(),
        !(Tuple { x, y, z, w: fx(SCALE as int) }).is_vector_spec(),
{
}

/// A tuple made by `vector` is a vector and not a point.
pub proof fn lemma_vector_is_vector(x: Fixed, y: Fixed, z: Fixed)
    ensures
        (Tuple { x, y, z, w: fx(0) }).is_vector_spec(),
        !(Tuple { x, y, z, w: fx(0) }).is_point_spec(),
{
}

/// A point minus a point is a vector.
pub proof fn lemma_point_minus_point(a: Tuple, b: Tuple)
    requires
        a.w.raw == SCALE,
        b.w.raw == SCALE,
    ensures
        a.sub_spec(b).is_vector_spec(),
        a.sub_spec(b).w.raw == 0,
{
}

/// A point plus a vector is a point.
pub proof fn lemma_point_plus_vector(a: Tuple, b: Tuple)
    requires
        a.w.raw == SCALE,
        b.w.raw == 0,
    ensures
        a.add_spec(b).is_point_spec(),
        a.add_spec(b).w.raw == SCALE,
{
}

/// A vector plus a vector is a vector.
pub proof fn lemma_vector_plus_vector(a: Tuple, b: Tuple)
    requires
        a.w.raw == 0,
        b.w.raw == 0,
    ensures
        a.add_spec(b).is_vector_spec(),
        a.add_spec(b).w.raw == 0,
{
}

/// The dot product does not depend on the order of its operands.
pub proof fn lemma_dot_commutative(a: Tuple, b: Tuple)
    ensures
        a.dot_spec(b) == b.dot_spec(a),
{
    lemma_mul_raw_commutative(a.x.raw as int, b.x.raw as int);
    lemma_mul_raw_commutative(a.y.raw as int, b.y.raw as int);
    lemma_mul_raw_commutative(a.z.raw as int, b.z.raw as int);
    lemma_mul_raw_commutative(a.w.raw as int, b.w.raw as int);
}

/// Swapping the operands of the cross product negates it.
pub proof fn lemma_cross_anticommutative(a: Tuple, b: Tuple)
    requires
        fits(a.cross_x(b)),
        fits(a.cross_y(b)),
        fits(a.cross_z(b)),
        fits(b.cross_x(a)),
        fits(b.cross_y(a)),
        fits(b.cross_z(a)),
    ensures
        a.cross_spec(b) == b.cross_spec(a).neg_spec(),
{
    lemma_mul_raw_commutative(a.y.raw as int, b.z.raw as int);
    lemma_mul_raw_commutative(a.z.raw as int, b.y.raw as int);
    lemma_mul_raw_commutative(a.z.raw as int, b.x.raw as int);
    lemma_mul_raw_commutative(a.x.raw as int, b.z.raw as int);
    lemma_mul_raw_commutative(a.x.raw as int, b.y.raw as int);
    lemma_mul_raw_commutative(a.y.raw as int, b.x.raw as int);
}

pub proof fn lemma_mul_raw_commutative(a: int, b: int)
    ensures
        mul_raw(a, b) == mul_raw(b, a),
{
    assert(a * b == b * a) by (nonlinear_arith);
}

/// Bounds on one normalized component: with `a` the size of a component, `b` the size of
/// the same component divided by the magnitude `m`, `b * m <= a * SCALE < (b + 1) * m`,
/// and likewise for the squares.
proof fn lemma_normalized_component(c: int, m: int)
    requires
        m >= 1,
    ensures
        ({
            let a = abs(c);
            let b = abs(div_raw(c, m));
            &&& 0 <= b
            &&& b * m <= a * SCALE
            &&& b * b == div_raw(c, m) * div_raw(c, m)
            &&& a * a == c * c
            &&& (b * b) * (m * m) <= (a * a) * (SCALE * SCALE)
            &&& (a * a) * (SCALE * SCALE) < ((b + 1) * (b + 1)) * (m * m)
        }),
{
    let a = abs(c);
    let q = div_raw(c, m);
    let b = abs(q);
    let x = a * SCALE;
    assert(a * a == c * c) by (nonlinear_arith)
        requires
            a == c || a == -c,
    ;
    assert(b * b == q * q) by (nonlinear_arith)
        requires
            b == q || b == -q,
    ;
    assert(abs(c * SCALE) == x) by (nonlinear_arith)
        requires
            a == c || a == -c,
            a >= 0,
            x == a * 1_000_000,
            abs(c * SCALE) == if c * SCALE < 0 { -(c * SCALE) } else { c * SCALE },
            SCALE == 1_000_000,
    ;
    assert(b == x / m);
    assert(x >= 0) by (nonlinear_arith)
        requires
            a >= 0,
            x == a * 1_000_000,
    ;
    assert(b * m <= x < (b + 1) * m) by (nonlinear_arith)
        requires
            b == x / m,
            m >= 1,
            x >= 0,
    ;
    assert(b >= 0) by (nonlinear_arith)
        requires
            b == x / m,
            m >= 1,
            x >= 0,
    ;
    assert((b * b) * (m * m) <= (a * a) * (SCALE * SCALE)) by (nonlinear_arith)
        requires
            0 <= b * m <= x,
            x == a * SCALE,
    ;
    assert((a * a) * (SCALE * SCALE) < ((b + 1) * (b + 1)) * (m * m)) by (nonlinear_arith)
        requires
            0 <= x < (b + 1) * m,
            x == a * SCALE,
    ;
}

/// Dividing four components by the rounded-down root `m` of their sum of squares, where
/// `m` is at least one, gives components of size at most one (and no larger than before)
/// whose own sum of squares has a root fuzzy-equal to one.
proof fn lemma_unit_length(c1: int, c2: int, c3: int, c4: int, m: int)
    requires
        is_sqrt_floor(m, c1 * c1 + c2 * c2 + c3 * c3 + c4 * c4),
        m >= SCALE,
    ensures
        fits(div_raw(c1, m)),
        fits(div_raw(c2, m)),
        fits(div_raw(c3, m)),
        fits(div_raw(c4, m)),
        abs(div_raw(c4, m)) <= abs(c4),
        ({
            let nn = div_raw(c1, m) * div_raw(c1, m) + div_raw(c2, m) * div_raw(c2, m) + div_raw(
                c3,
                m,
            ) * div_raw(c3, m) + div_raw(c4, m) * div_raw(c4, m);
            &&& nn < (SCALE + 1) * (SCALE + 1)
            &&& near(sqrt_floor(nn), SCALE as int)
        }),
{
    let n = c1 * c1 + c2 * c2 + c3 * c3 + c4 * c4;
    lemma_square_nonneg(c1);
    lemma_square_nonneg(c2);
    lemma_square_nonneg(c3);
    lemma_square_nonneg(c4);
    lemma_component_over_norm(c1, m, n);
    lemma_component_over_norm(c2, m, n);
    lemma_component_over_norm(c3, m, n);
    lemma_component_over_norm(c4, m, n);
    lemma_normalized_component(c1, m);
    lemma_normalized_component(c2, m);
    lemma_normalized_component(c3, m);
    lemma_normalized_component(c4, m);
    let s = SCALE as int;
    let (a1, a2, a3, a4) = (abs(c1), abs(c2), abs(c3), abs(c4));
    let (b1, b2, b3, b4) = (
        abs(div_raw(c1, m)),
        abs(div_raw(c2, m)),
        abs(div_raw(c3, m)),
        abs(div_raw(c4, m)),
    );
    let nn = div_raw(c1, m) * div_raw(c1, m) + div_raw(c2, m) * div_raw(c2, m) + div_raw(c3, m)
        * div_raw(c3, m) + div_raw(c4, m) * div_raw(c4, m);
    assert(nn == b1 * b1 + b2 * b2 + b3 * b3 + b4 * b4);
    assert(n == a1 * a1 + a2 * a2 + a3 * a3 + a4 * a4);
    let mm = m * m;
    let ss = s * s;
    lemma_sum4_times(b1 * b1, b2 * b2, b3 * b3, b4 * b4, mm);
    lemma_sum4_times(a1 * a1, a2 * a2, a3 * a3, a4 * a4, ss);
    assert(nn * mm <= n * ss);
    let t = (b1 + 1) * (b1 + 1) + (b2 + 1) * (b2 + 1) + (b3 + 1) * (b3 + 1) + (b4 + 1) * (b4 + 1);
    lemma_sum4_times((b1 + 1) * (b1 + 1), (b2 + 1) * (b2 + 1), (b3 + 1) * (b3 + 1), (b4 + 1) * (
    b4 + 1), mm);
    assert(n * ss < t * mm);
    // from above: the new sum of squares stays under (SCALE + 1) squared
    assert(nn < (s + 1) * (s + 1)) by (nonlinear_arith)
        requires
            nn * mm <= n * ss,
            n < (m + 1) * (m + 1),
            m >= s,
            s >= 1,
            mm == m * m,
            ss == s * s,
    ;
    // from below: it reaches (SCALE - 9) squared
    assert(ss < t) by (nonlinear_arith)
        requires
            n * ss < t * mm,
            m * m <= n,
            mm == m * m,
            m >= 1,
            ss >= 0,
    ;
    assert(nn >= (s - 9) * (s - 9)) by (nonlinear_arith)
        requires
            s == 1_000_000,
            ss == s * s,
            ss < t,
            t == (b1 + 1) * (b1 + 1) + (b2 + 1) * (b2 + 1) + (b3 + 1) * (b3 + 1) + (b4 + 1) * (b4
                + 1),
            nn == b1 * b1 + b2 * b2 + b3 * b3 + b4 * b4,
            0 <= b1 <= s,
            0 <= b2 <= s,
            0 <= b3 <= s,
            0 <= b4 <= s,
    ;
    assert(b4 <= a4) by (nonlinear_arith)
        requires
            0 <= b4 * m <= a4 * s,
            m >= s,
            s >= 1,
            b4 >= 0,
            a4 >= 0,
    ;
    lemma_square_nonneg(b1);
    lemma_square_nonneg(b2);
    lemma_square_nonneg(b3);
    lemma_square_nonneg(b4);
    lemma_sqrt_floor_exists(nn);
    let k = sqrt_floor(nn);
    assert(s - 9 <= k <= s) by (nonlinear_arith)
        requires
            0 <= k,
            k * k <= nn < (k + 1) * (k + 1),
            (s - 9) * (s - 9) <= nn < (s + 1) * (s + 1),
            s == 1_000_000,
    ;
}

/// A sum of four terms times `k` is the sum of the four products.
proof fn lemma_sum4_times(p1: int, p2: int, p3: int, p4: int, k: int)
    ensures
        (p1 + p2 + p3 + p4) * k == p1 * k + p2 * k + p3 * k + p4 * k,
{
    assert((p1 + p2 + p3 + p4) * k == p1 * k + p2 * k + p3 * k + p4 * k) by (nonlinear_arith);
}

/// Scaling four components by `q` scales their sum of squares by `q * q`.
proof fn lemma_scaled_sum(x: int, y: int, z: int, w: int, q: int)
    ensures
        (x * q) * (x * q) + (y * q) * (y * q) + (z * q) * (z * q) + (w * q) * (w * q) == (x * x + y
            * y + z * z + w * w) * (q * q),
{
    assert((x * q) * (x * q) == (x * x) * (q * q)) by (nonlinear_arith);
    assert((y * q) * (y * q) == (y * y) * (q * q)) by (nonlinear_arith);
    assert((z * q) * (z * q) == (z * z) * (q * q)) by (nonlinear_arith);
    assert((w * q) * (w * q) == (w * w) * (q * q)) by (nonlinear_arith);
    lemma_sum4_times(x * x, y * y, z * z, w * w, q * q);
}

/// Normalizing a nonzero vector gives a tuple whose magnitude is fuzzy-equal to one. The
/// result is again a vector when `w` is zero or the magnitude is at least one.
pub proof fn lemma_normalized_magnitude(v: Tuple)
    requires
        v.is_vector_spec(),
        0 < v.norm_sq() < NORM_SQ_LIMIT,
    ensures
        v.normalize_spec().norm_sq() < NORM_SQ_LIMIT,
        near(v.normalize_spec().magnitude_spec(), SCALE as int),
        v.w.raw == 0 || v.magnitude_spec() >= SCALE ==> v.normalize_spec().is_vector_spec(),
{
    let n = v.norm_sq();
    let (x, y, z, w) = (v.x.raw as int, v.y.raw as int, v.z.raw as int, v.w.raw as int);
    lemma_square_nonneg(x);
    lemma_square_nonneg(y);
    lemma_square_nonneg(z);
    lemma_square_nonneg(w);
    let q: int = if v.magnitude_spec() >= SCALE { 1 } else { FINE as int };
    let (c1, c2, c3, c4) = (x * q, y * q, z * q, w * q);
    lemma_scaled_sum(x, y, z, w, q);
    assert(n * (q * q) >= 0) by (nonlinear_arith)
        requires
            n >= 0,
    ;
    lemma_sqrt_floor_exists(n * (q * q));
    lemma_sqrt_floor_exists(n);
    let m = v.scaled_magnitude(q);
    if q == 1 {
        assert(n * (q * q) == n);
    } else {
        assert(m >= SCALE) by (nonlinear_arith)
            requires
                n >= 1,
                q == 1_000_000,
                m * m <= n * (q * q) < (m + 1) * (m + 1),
                m >= 0,
        ;
    }
    lemma_unit_length(c1, c2, c3, c4, m);
    let r = v.normalize_spec();
    assert(r == v.normalize_by(q));
    assert(r.x.raw == div_raw(c1, m));
    assert(r.y.raw == div_raw(c2, m));
    assert(r.z.raw == div_raw(c3, m));
    assert(r.w.raw == div_raw(c4, m));
    assert(r.norm_sq() < NORM_SQ_LIMIT);
    if w == 0 {
        assert(c4 == 0);
    }
}

/// Every natural number has a rounded-down square root.
pub proof fn lemma_sqrt_floor_exists(n: int)
    requires
        n >= 0,
    ensures
        is_sqrt_floor(sqrt_floor(n), n),
    decreases n,
{
    if n == 0 {
        assert(is_sqrt_floor(0, n));
    } else {
        lemma_sqrt_floor_exists(n - 1);
        let r = sqrt_floor(n - 1);
        if (r + 1) * (r + 1) <= n {
            assert((r + 1) * (r + 1) == n);
            assert(n < (r + 2) * (r + 2)) by (nonlinear_arith)
                requires
                    (r + 1) * (r + 1) == n,
                    r >= 0,
            ;
            assert(is_sqrt_floor(r + 1, n));
        } else {
            assert(is_sqrt_floor(r, n));
        }
    }
}

/// The square of a raw value.
fn square(v: i64) -> (r: u128)
    ensures
        r == v * v,
{
    proof {
        lemma_i64_product(v as int, v as int);
        lemma_square_nonneg(v as int);
    }
    ((v as i128) * (v as i128)) as u128
}

/// Whole square root, rounded down, by bisection.
pub fn sqrt_floor_u128(n: u128) -> (r: u64)
    requires
        n < NORM_SQ_LIMIT,
    ensures
        is_sqrt_floor(r as int, n as int),
        r <= i64::MAX,
{
    let mut lo: u128 = 0;
    let mut hi: u128 = 0x8000_0000_0000_0000;
    assert(hi * hi == NORM_SQ_LIMIT) by (nonlinear_arith)
        requires
            hi == 0x8000_0000_0000_0000u128,
    ;
    while hi - lo > 1
        invariant
            lo < hi <= 0x8000_0000_0000_0000,
            lo * lo <= n < hi * hi,
        decreases hi - lo,
    {
        let mid: u128 = lo + (hi - lo) / 2;
        assert(mid * mid <= 0x4000_0000_0000_0000_0000_0000_0000_0000) by (nonlinear_arith)
            requires
                mid <= 0x8000_0000_0000_0000,
        ;
        if mid * mid <= n {
            lo = mid;
        } else {
            hi = mid;
        }
    }
    lo as u64
}

pub proof fn lemma_square_nonneg(v: int)
    ensures
        v * v >= 0,
{
    assert(v * v >= 0) by (nonlinear_arith);
}

/// The rounded-down square root is unique.
pub proof fn lemma_sqrt_floor_unique(r: int, n: int)
    requires
        is_sqrt_floor(r, n),
    ensures
        sqrt_floor(n) == r,
{
    let s = sqrt_floor(n);
    assert(is_sqrt_floor(s, n));
    if s < r {
        assert((s + 1) * (s + 1) <= r * r) by (nonlinear_arith)
            requires
                0 <= s + 1 <= r,
        ;
    }
    if r < s {
        assert((r + 1) * (r + 1) <= s * s) by (nonlinear_arith)
            requires
                0 <= r + 1 <= s,
        ;
    }
}

/// A component divided by the norm of its tuple is at most one in size.
pub proof fn lemma_component_over_norm(c: int, m: int, n: int)
    requires
        c * c <= n,
        is_sqrt_floor(m, n),
        m >= 1,
    ensures
        abs(div_raw(c, m)) <= SCALE,
        fits(div_raw(c, m)),
{
    let a = abs(c);
    assert(a * a == c * c) by (nonlinear_arith)
        requires
            a == c || a == -c,
    ;
    assert(a <= m) by (nonlinear_arith)
        requires
            a >= 0,
            a * a < (m + 1) * (m + 1),
            m >= 1,
    ;
    assert(abs(c * SCALE) == a * 1_000_000) by (nonlinear_arith)
        requires
            a == c || a == -c,
            a >= 0,
            abs(c * SCALE) == if c * SCALE < 0 { -(c * SCALE) } else { c * SCALE },
            SCALE == 1_000_000,
    ;
    assert((a * 1_000_000) / m <= 1_000_000) by (nonlinear_arith)
        requires
            0 <= a <= m,
            m >= 1,
    ;
}

} // verus!
