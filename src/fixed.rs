use vstd::prelude::*;

verus! {

/// Number of raw units in one whole unit: a `Fixed` counts millionths.
pub const SCALE: i64 = 1_000_000;

/// Tolerance of fuzzy equality, in raw units (one hundred-thousandth).
pub const EPSILON: i64 = 10;

/// Absolute value of an integer.
pub open spec fn abs(v: int) -> int {
    if v < 0 { -v } else { v }
}

/// Whether a mathematical integer can be held by an `i64`.
pub open spec fn fits(v: int) -> bool {
    i64::MIN <= v <= i64::MAX
}

/// Integer division rounding toward zero (`d` nonzero).
pub open spec fn tdiv(n: int, d: int) -> int {
    if (n < 0) != (d < 0) {
        -(abs(n) / abs(d))
    } else {
        abs(n) / abs(d)
    }
}

/// Raw value of the product of two fixed-point numbers given by their raw values.
pub open spec fn mul_raw(a: int, b: int) -> int {
    tdiv(a * b, SCALE as int)
}

/// Raw value of the quotient of two fixed-point numbers given by their raw values.
pub open spec fn div_raw(a: int, b: int) -> int {
    tdiv(a * SCALE, b)
}

/// Two raw values lie closer together than the tolerance.
pub open spec fn near(a: int, b: int) -> bool {
    abs(a - b) < EPSILON
}

/// A real number held as a whole count of millionths.
#[derive(Debug, Clone, Copy, PartialEq, Eq, Structural)]
pub struct Fixed {
    pub raw: i64,
}

/// Divides rounding toward zero.
pub fn trunc_div(n: i128, d: i128) -> (r: i128)
    requires
        d != 0,
        n > i128::MIN,
        d > i128::MIN,
    ensures
        r == tdiv(n as int, d as int),
{
    let an: i128 = if n < 0 { -n } else { n };
    let ad: i128 = if d < 0 { -d } else { d };
    let q: i128 = an / ad;
    if (n < 0) != (d < 0) {
        -q
    } else {
        q
    }
}

impl Fixed {
    /// The number whose raw value is `raw`.
    pub fn from_raw(raw: i64) -> (r: Fixed)
        ensures
            r.raw == raw,
    {
        Fixed { raw }
    }

    /// The whole number `n`.
    pub fn from_int(n: i64) -> (r: Fixed)
        requires
            fits(n * SCALE),
        ensures
            r.raw == n * SCALE,
    {
        Fixed { raw: n * SCALE }
    }

    /// The sum of two numbers.
    pub fn add(self, o: Fixed) -> (r: Fixed)
        requires
            fits(self.raw + o.raw),
        ensures
            r.raw == self.raw + o.raw,
    {
        Fixed { raw: self.raw + o.raw }
    }

    /// The difference of two numbers.
    pub fn sub(self, o: Fixed) -> (r: Fixed)
        requires
            fits(self.raw - o.raw),
        ensures
            r.raw == self.raw - o.raw,
    {
        Fixed { raw: self.raw - o.raw }
    }

    /// The negated number.
    pub fn neg(self) -> (r: Fixed)
        requires
            self.raw > i64::MIN,
        ensures
            r.raw == -self.raw,
    {
        Fixed { raw: -self.raw }
    }

    /// The product of two numbers, truncated toward zero to a millionth.
    pub fn mul(self, o: Fixed) -> (r: Fixed)
        requires
            fits(mul_raw(self.raw as int, o.raw as int)),
        ensures
            r.raw == mul_raw(self.raw as int, o.raw as int),
    {
        Fixed { raw: mul_i64(self.raw, o.raw) as i64 }
    }

    /// The quotient of two numbers, truncated toward zero to a millionth.
    pub fn div(self, o: Fixed) -> (r: Fixed)
        requires
            o.raw != 0,
            fits(div_raw(self.raw as int, o.raw as int)),
        ensures
            r.raw == div_raw(self.raw as int, o.raw as int),
    {
        Fixed { raw: div_i64(self.raw, o.raw) as i64 }
    }
}

/// Raw product of two raw values, before it is narrowed to an `i64`.
pub fn mul_i64(a: i64, b: i64) -> (r: i128)
    ensures
        r == mul_raw(a as int, b as int),
        -PRODUCT_BOUND < r < PRODUCT_BOUND,
{
    proof {
        lemma_i64_product(a as int, b as int);
    }
    let p: i128 = (a as i128) * (b as i128);
    proof {
        lemma_tdiv_product_bound(p as int);
    }
    trunc_div(p, SCALE as i128)
}

/// Raw quotient of two raw values, before it is narrowed to an `i64`.
pub fn div_i64(a: i64, b: i64) -> (r: i128)
    requires
        b != 0,
    ensures
        r == div_raw(a as int, b as int),
{
    proof {
        lemma_i64_product(a as int, SCALE as int);
    }
    let p: i128 = (a as i128) * (SCALE as i128);
    trunc_div(p, b as i128)
}

/// The product of two `i64` values lies well inside the range of an `i128`.
pub proof fn lemma_i64_product(a: int, b: int)
    requires
        fits(a),
        fits(b),
    ensures
        -0x4000_0000_0000_0000_0000_0000_0000_0000 <= a * b <= 0x4000_0000_0000_0000_0000_0000_0000_0000,
{
    assert(-0x4000_0000_0000_0000_0000_0000_0000_0000 <= a * b <= 0x4000_0000_0000_0000_0000_0000_0000_0000)
        by (nonlinear_arith)
        requires
            -0x8000_0000_0000_0000 <= a <= 0x7fff_ffff_ffff_ffff,
            -0x8000_0000_0000_0000 <= b <= 0x7fff_ffff_ffff_ffff,
    ;
}

/// A product of two `i64` values scaled down to millionths stays far below this bound.
pub const PRODUCT_BOUND: i128 = 0x1_0000_0000_0000_0000_0000_0000_0000;

/// Scaling down a product of two `i64` values lands inside `PRODUCT_BOUND`.
pub proof fn lemma_tdiv_product_bound(p: int)
    requires
        -0x4000_0000_0000_0000_0000_0000_0000_0000 <= p <= 0x4000_0000_0000_0000_0000_0000_0000_0000,
    ensures
        -PRODUCT_BOUND < tdiv(p, SCALE as int) < PRODUCT_BOUND,
{
    let a = abs(p);
    assert(a / 1_000_000 < 0x1_0000_0000_0000_0000_0000_0000_0000) by (nonlinear_arith)
        requires
            0 <= a <= 0x4000_0000_0000_0000_0000_0000_0000_0000,
    ;
    assert(a / 1_000_000 >= 0) by (nonlinear_arith)
        requires
            0 <= a,
    ;
}

} // verus!
