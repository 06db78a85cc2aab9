use crate::fixed::{fits, mul_raw, Fixed};
use vstd::prelude::*;

verus! {

/// An RGB color; components may leave the range from zero to one.
#[derive(Debug, Clone, Copy, PartialEq, Eq, Structural)]
pub struct Color {
    pub r: Fixed,
    pub g: Fixed,
    pub b: Fixed,
}

impl Color {
    pub fn new(r: Fixed, g: Fixed, b: Fixed) -> (c: Color)
        ensures
            c == (Color { r, g, b }),
    {
        Color { r, g, b }
    }

    /// Component-wise sum, without clamping.
    pub fn add(self, rhs: Color) -> (c: Color)
        requires
            fits(self.r.raw + rhs.r.raw),
            fits(self.g.raw + rhs.g.raw),
            fits(self.b.raw + rhs.b.raw),
        ensures
            c.r.raw == self.r.raw + rhs.r.raw,
            c.g.raw == self.g.raw + rhs.g.raw,
            c.b.raw == self.b.raw + rhs.b.raw,
    {
        Color { r: self.r.add(rhs.r), g: self.g.add(rhs.g), b: self.b.add(rhs.b) }
    }

    /// Component-wise difference, without clamping.
    pub fn sub(self, rhs: Color) -> (c: Color)
        requires
            fits(self.r.raw - rhs.r.raw),
            fits(self.g.raw - rhs.g.raw),
            fits(self.b.raw - rhs.b.raw),
        ensures
            c.r.raw == self.r.raw - rhs.r.raw,
            c.g.raw == self.g.raw - rhs.g.raw,
            c.b.raw == self.b.raw - rhs.b.raw,
    {
        Color { r: self.r.sub(rhs.r), g: self.g.sub(rhs.g), b: self.b.sub(rhs.b) }
    }

    /// Every component scaled by `m`, without clamping.
    pub fn mul(self, m: Fixed) -> (c: Color)
        requires
            fits(mul_raw(self.r.raw as int, m.raw as int)),
            fits(mul_raw(self.g.raw as int, m.raw as int)),
            fits(mul_raw(self.b.raw as int, m.raw as int)),
        ensures
            c.r.raw == mul_raw(self.r.raw as int, m.raw as int),
            c.g.raw == mul_raw(self.g.raw as int, m.raw as int),
            c.b.raw == mul_raw(self.b.raw as int, m.raw as int),
    {
        Color { r: self.r.mul(m), g: self.g.mul(m), b: self.b.mul(m) }
    }
}

impl Fixed {
    /// Every component of `c` scaled by this number; the same as `c.mul(self)`.
    pub fn mul_color(self, c: Color) -> (r: Color)
        requires
            fits(mul_raw(c.r.raw as int, self.raw as int)),
            fits(mul_raw(c.g.raw as int, self.raw as int)),
            fits(mul_raw(c.b.raw as int, self.raw as int)),
        ensures
            r.r.raw == mul_raw(c.r.raw as int, self.raw as int),
            r.g.raw == mul_raw(c.g.raw as int, self.raw as int),
            r.b.raw == mul_raw(c.b.raw as int, self.raw as int),
    {
        c.mul(self)
    }
}

/// The color every cell of a new canvas holds.
pub open spec fn black() -> Color {
    Color { r: Fixed { raw: 0 }, g: Fixed { raw: 0 }, b: Fixed { raw: 0 } }
}

/// A grid of colors, origin at the top left, stored row by row.
pub struct Canvas {
    pub width: usize,
    pub height: usize,
    pub pixels: Vec<Color>,
}

/// Position of cell `(x, y)` in the row-major store of a grid `w` cells wide.
pub open spec fn cell_index(w: int, x: int, y: int) -> int {
    y * w + x
}

impl Canvas {
    /// The store holds one color per cell, and the cell count fits in a `usize`.
    pub open spec fn wf(&self) -> bool {
        &&& self.pixels@.len() == self.width * self.height
        &&& self.width * self.height <= usize::MAX
    }

    /// `(x, y)` names a cell of the canvas.
    pub open spec fn in_bounds(&self, x: int, y: int) -> bool {
        0 <= x < self.width && 0 <= y < self.height
    }

    /// The color at cell `(x, y)`.
    pub open spec fn pixel(&self, x: int, y: int) -> Color {
        self.pixels@[cell_index(self.width as int, x, y)]
    }

    /// A canvas of the given size, every cell black.
    pub fn new(width: usize, height: usize) -> (c: Canvas)
        requires
            width * height <= usize::MAX,
        ensures
            c.wf(),
            c.width == width,
            c.height == height,
            forall|x: int, y: int| c.in_bounds(x, y) ==> c.pixel(x, y) == black(),
    {
        let n: usize = width * height;
        let mut pixels: Vec<Color> = Vec::new();
        let mut i: usize = 0;
        while i < n
            invariant
                i <= n,
                pixels@.len() == i,
                forall|k: int| 0 <= k < i ==> pixels@[k] == black(),
            decreases n - i,
        {
            pixels.push(Color { r: Fixed { raw: 0 }, g: Fixed { raw: 0 }, b: Fixed { raw: 0 } });
            i = i + 1;
        }
        let c = Canvas { width, height, pixels };
        assert forall|x: int, y: int| c.in_bounds(x, y) implies c.pixel(x, y) == black() by {
            lemma_cell_index_in_range(width as int, height as int, x, y);
        }
        c
    }

    /// Overwrites cell `(x, y)`; the cell must lie on the canvas.
    pub fn write_pixel(&mut self, x: usize, y: usize, color: Color)
        requires
            old(self).wf(),
            old(self).in_bounds(x as int, y as int),
        ensures
            final(self).wf(),
            final(self).width == old(self).width,
            final(self).height == old(self).height,
            final(self).pixel(x as int, y as int) == color,
            forall|px: int, py: int|
                final(self).in_bounds(px, py) && (px != x || py != y) ==> final(self).pixel(px, py)
                    == old(self).pixel(px, py),
    {
        proof {
            lemma_cell_index_in_range(self.width as int, self.height as int, x as int, y as int);
        }
        let i: usize = y * self.width + x;
        self.pixels.set(i, color);
        proof {
            assert forall|px: int, py: int|
                self.in_bounds(px, py) && (px != x || py != y) implies self.pixel(px, py)
                == old(self).pixel(px, py) by {
                lemma_cell_index_in_range(self.width as int, self.height as int, px, py);
                if cell_index(self.width as int, x as int, y as int) == cell_index(
                    self.width as int,
                    px,
                    py,
                ) {
                    lemma_cell_index_injective(self.width as int, x as int, y as int, px, py);
                }
            }
        }
    }

    /// The color at cell `(x, y)`; the cell must lie on the canvas.
    pub fn pixel_at(&self, x: usize, y: usize) -> (c: Color)
        requires
            self.wf(),
            self.in_bounds(x as int, y as int),
        ensures
            c == self.pixel(x as int, y as int),
    {
        proof {
            lemma_cell_index_in_range(self.width as int, self.height as int, x as int, y as int);
        }
        self.pixels[y * self.width + x]
    }
}

/// A cell of a `w` by `h` grid has its position inside the store.
pub proof fn lemma_cell_index_in_range(w: int, h: int, x: int, y: int)
    requires
        0 <= x < w,
        0 <= y < h,
    ensures
        0 <= cell_index(w, x, y) < w * h,
        y * w <= cell_index(w, x, y),
{
    assert(0 <= y * w + x < w * h) by (nonlinear_arith)
        requires
            0 <= x < w,
            0 <= y < h,
    ;
    assert(0 <= y * w) by (nonlinear_arith)
        requires
            0 <= x < w,
            0 <= y,
    ;
}

/// Distinct cells have distinct positions.
pub proof fn lemma_cell_index_injective(w: int, x1: int, y1: int, x2: int, y2: int)
    requires
        0 <= x1 < w,
        0 <= x2 < w,
        0 <= y1,
        0 <= y2,
        cell_index(w, x1, y1) == cell_index(w, x2, y2),
    ensures
        x1 == x2,
        y1 == y2,
{
    if y1 < y2 {
        assert(y1 * w + w <= y2 * w) by (nonlinear_arith)
            requires
                y1 + 1 <= y2,
                w >= 0,
        ;
    }
    if y2 < y1 {
        assert(y2 * w + w <= y1 * w) by (nonlinear_arith)
            requires
                y2 + 1 <= y1,
                w >= 0,
        ;
    }
}

} // verus!
