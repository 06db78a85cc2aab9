use crate::canvas::{Canvas, Color};
use crate::fixed::{Fixed, SCALE};
use vstd::prelude::*;

verus! {

/// Longest line the encoder writes, in bytes.
pub const MAX_LINE_LEN: usize = 70;

/// Largest channel value of the encoded image.
pub const MAX_CHANNEL: i64 = 255;

/// A color component clamped to the range from zero to one, in raw units.
pub open spec fn clamp_unit(raw: int) -> int {
    if raw < 0 {
        0
    } else if raw > SCALE {
        SCALE as int
    } else {
        raw
    }
}

/// A color component as a channel value: clamped, scaled to 255 and rounded half up.
pub open spec fn channel_value(c: Fixed) -> int {
    (clamp_unit(c.raw as int) * MAX_CHANNEL + SCALE / 2) / SCALE as int
}

/// The decimal digits of `n` as ASCII.
pub open spec fn decimal(n: nat) -> Seq<u8>
    decreases n,
{
    if n < 10 {
        seq![(48 + n) as u8]
    } else {
        decimal(n / 10).push((48 + n % 10) as u8)
    }
}

/// Component `k` of a color: red, green, blue for zero, one, two.
pub open spec fn component(c: Color, k: int) -> Fixed {
    if k == 0 {
        c.r
    } else if k == 1 {
        c.g
    } else {
        c.b
    }
}

/// The channel values of row `y`, three per pixel, left to right.
pub open spec fn row_values(c: Canvas, y: int) -> Seq<int> {
    Seq::new((3 * c.width) as nat, |k: int| channel_value(component(c.pixel(k / 3, y), k % 3)))
}

/// The bytes written for value `v` when the current line already holds `line_len` bytes:
/// the value opens a line, joins it after a space, or moves to a new line.
pub open spec fn piece(v: int, line_len: int) -> Seq<u8> {
    let d = decimal(v as nat);
    if line_len == 0 {
        d
    } else if line_len + 1 + d.len() > MAX_LINE_LEN {
        seq![10u8] + d
    } else {
        seq![32u8] + d
    }
}

/// Length of the current line after value `v` is written.
pub open spec fn next_len(v: int, line_len: int) -> int {
    let d = decimal(v as nat);
    if line_len == 0 || line_len + 1 + d.len() > MAX_LINE_LEN {
        d.len() as int
    } else {
        line_len + 1 + d.len()
    }
}

/// The values from index `i` on, wrapped greedily into lines, then a newline.
#[verifier::opaque]
pub open spec fn wrap_from(vals: Seq<int>, i: int, line_len: int) -> Seq<u8>
    decreases vals.len() - i,
{
    if i < 0 || i >= vals.len() {
        seq![10u8]
    } else {
        piece(vals[i], line_len) + wrap_from(vals, i + 1, next_len(vals[i], line_len))
    }
}

/// The lines of rows `y` onward.
pub open spec fn rows_from(c: Canvas, y: int) -> Seq<u8>
    decreases c.height - y,
{
    if y < 0 || y >= c.height {
        seq![]
    } else {
        wrap_from(row_values(c, y), 0, 0) + rows_from(c, y + 1)
    }
}

/// The three header lines: the magic word, the size, and the largest channel value.
pub open spec fn header(c: Canvas) -> Seq<u8> {
    seq![80u8, 51u8, 10u8] + decimal(c.width as nat) + seq![32u8] + decimal(c.height as nat)
        + seq![10u8, 50u8, 53u8, 53u8, 10u8]
}

/// The whole encoded image.
pub open spec fn ppm(c: Canvas) -> Seq<u8> {
    header(c) + rows_from(c, 0)
}

/// Scanning `s` with `len` bytes already on the current line, no line grows past
/// `MAX_LINE_LEN` bytes (the newline not counted).
pub open spec fn fits_lines(s: Seq<u8>, len: int) -> bool
    decreases s.len(),
{
    if s.len() == 0 {
        true
    } else if s[0] == 10u8 {
        fits_lines(s.drop_first(), 0)
    } else {
        len + 1 <= MAX_LINE_LEN && fits_lines(s.drop_first(), len + 1)
    }
}

/// Length of the last line after scanning `s` with `len` bytes already on the current line.
pub open spec fn end_len(s: Seq<u8>, len: int) -> int
    decreases s.len(),
{
    if s.len() == 0 {
        len
    } else if s[0] == 10u8 {
        end_len(s.drop_first(), 0)
    } else {
        end_len(s.drop_first(), len + 1)
    }
}

/// No line of an encoded image is longer than `MAX_LINE_LEN` bytes, and the image ends
/// with a newline.
pub proof fn lemma_ppm_lines_fit(c: Canvas)
    ensures
        fits_lines(ppm(c), 0),
        ppm(c).len() > 0,
        ppm(c).last() == 10u8,
{
    let h = header(c);
    let dw = decimal(c.width as nat);
    let dh = decimal(c.height as nat);
    let lw = dw.len() as int;
    let lh = dh.len() as int;
    lemma_decimal_usize(c.width as nat);
    lemma_decimal_usize(c.height as nat);
    let a = seq![80u8, 51u8, 10u8];
    let b = seq![32u8];
    let e = seq![10u8, 50u8, 53u8, 53u8, 10u8];
    assert(h =~= a + (dw + (b + (dh + e))));
    assert(fits_lines(a, 0) && end_len(a, 0) == 0) by {
        reveal_with_fuel(fits_lines, 4);
        reveal_with_fuel(end_len, 4);
    }
    assert(fits_lines(b, lw) && end_len(b, lw) == lw + 1) by {
        reveal_with_fuel(fits_lines, 2);
        reveal_with_fuel(end_len, 2);
    }
    assert(fits_lines(e, lw + 1 + lh) && end_len(e, lw + 1 + lh) == 0) by {
        reveal_with_fuel(fits_lines, 6);
        reveal_with_fuel(end_len, 6);
    }
    lemma_no_newline(dw, 0);
    lemma_no_newline(dh, lw + 1);
    lemma_concat(dh, e, lw + 1);
    lemma_concat(b, dh + e, lw);
    lemma_concat(dw, b + (dh + e), 0);
    lemma_concat(a, dw + (b + (dh + e)), 0);
    lemma_rows_fit(c, 0);
    lemma_concat(h, rows_from(c, 0), 0);
    if rows_from(c, 0).len() == 0 {
        assert(ppm(c) =~= h);
        assert(h.last() == e.last());
    } else {
        assert(ppm(c).last() == rows_from(c, 0).last());
    }
}

/// The lines of rows `y` onward fit, end with a newline when there are any, and leave an
/// empty last line.
proof fn lemma_rows_fit(c: Canvas, y: int)
    ensures
        fits_lines(rows_from(c, y), 0),
        end_len(rows_from(c, y), 0) == 0,
        rows_from(c, y).len() > 0 ==> rows_from(c, y).last() == 10u8,
    decreases c.height - y,
{
    if 0 <= y < c.height {
        let vals = row_values(c, y);
        lemma_row_values_small(c, y);
        lemma_wrap_fits(vals, 0, 0);
        lemma_rows_fit(c, y + 1);
        lemma_concat(wrap_from(vals, 0, 0), rows_from(c, y + 1), 0);
        let rest = rows_from(c, y + 1);
        if rest.len() == 0 {
            assert(rows_from(c, y) =~= wrap_from(vals, 0, 0));
        } else {
            assert(rows_from(c, y).last() == rest.last());
        }
    }
}

/// Every channel value of a row lies between 0 and 255.
proof fn lemma_row_values_small(c: Canvas, y: int)
    ensures
        forall|k: int| 0 <= k < row_values(c, y).len() ==> 0 <= #[trigger] row_values(c, y)[k] <= 999,
{
    assert forall|k: int| 0 <= k < row_values(c, y).len() implies 0 <= #[trigger] row_values(
        c,
        y,
    )[k] <= 999 by {
        lemma_channel_clamps(component(c.pixel(k / 3, y), k % 3));
    }
}

/// The wrapped lines of values from `i` on fit and end with a newline.
proof fn lemma_wrap_fits(vals: Seq<int>, i: int, len: int)
    requires
        0 <= len <= MAX_LINE_LEN,
        forall|k: int| 0 <= k < vals.len() ==> 0 <= #[trigger] vals[k] <= 999,
    ensures
        fits_lines(wrap_from(vals, i, len), len),
        end_len(wrap_from(vals, i, len), len) == 0,
        wrap_from(vals, i, len).len() > 0,
        wrap_from(vals, i, len).last() == 10u8,
    decreases vals.len() - i,
{
    if i < 0 || i >= vals.len() {
        reveal(wrap_from);
        assert(fits_lines(seq![10u8], len) && end_len(seq![10u8], len) == 0) by {
            reveal_with_fuel(fits_lines, 2);
            reveal_with_fuel(end_len, 2);
        }
    } else {
        let p = piece(vals[i], len);
        let nl = next_len(vals[i], len);
        lemma_piece_fits(vals[i], len);
        lemma_wrap_step(vals, i, len);
        lemma_wrap_fits(vals, i + 1, nl);
        lemma_concat(p, wrap_from(vals, i + 1, nl), len);
    }
}

/// The piece written for one value fits on the line and leaves `next_len` bytes on it.
proof fn lemma_piece_fits(v: int, len: int)
    requires
        0 <= v <= 999,
        0 <= len <= MAX_LINE_LEN,
    ensures
        fits_lines(piece(v, len), len),
        end_len(piece(v, len), len) == next_len(v, len),
        0 <= next_len(v, len) <= MAX_LINE_LEN,
{
    let d = decimal(v as nat);
    lemma_decimal_len(v as nat);
    lemma_decimal_digits(v as nat);
    if len == 0 {
        lemma_no_newline(d, 0);
    } else if len + 1 + d.len() > MAX_LINE_LEN {
        lemma_concat(seq![10u8], d, len);
        assert(fits_lines(seq![10u8], len) && end_len(seq![10u8], len) == 0) by {
            reveal_with_fuel(fits_lines, 2);
            reveal_with_fuel(end_len, 2);
        }
        lemma_no_newline(d, 0);
    } else {
        lemma_concat(seq![32u8], d, len);
        assert(fits_lines(seq![32u8], len) && end_len(seq![32u8], len) == len + 1) by {
            reveal_with_fuel(fits_lines, 2);
            reveal_with_fuel(end_len, 2);
        }
        lemma_no_newline(d, len + 1);
    }
}

/// Scanning a concatenation scans the first part, then the second from where it ended.
proof fn lemma_concat(a: Seq<u8>, b: Seq<u8>, len: int)
    ensures
        fits_lines(a + b, len) == (fits_lines(a, len) && fits_lines(b, end_len(a, len))),
        end_len(a + b, len) == end_len(b, end_len(a, len)),
    decreases a.len(),
{
    if a.len() == 0 {
        assert(a + b =~= b);
    } else {
        assert((a + b).drop_first() =~= a.drop_first() + b);
        let next = if a[0] == 10u8 { 0 } else { len + 1 };
        lemma_concat(a.drop_first(), b, next);
    }
}

/// A run without newlines fits when it does not overrun the line, and lengthens it.
proof fn lemma_no_newline(s: Seq<u8>, len: int)
    requires
        forall|k: int| 0 <= k < s.len() ==> #[trigger] s[k] != 10u8,
    ensures
        fits_lines(s, len) == (s.len() == 0 || len + s.len() <= MAX_LINE_LEN),
        end_len(s, len) == len + s.len(),
    decreases s.len(),
{
    if s.len() > 0 {
        assert(forall|k: int| 0 <= k < s.drop_first().len() ==> #[trigger] s.drop_first()[k]
            == s[k + 1]);
        lemma_no_newline(s.drop_first(), len + 1);
    }
}

/// Decimal digits are never newlines.
proof fn lemma_decimal_digits(n: nat)
    ensures
        forall|k: int| 0 <= k < decimal(n).len() ==> 48 <= #[trigger] decimal(n)[k] <= 57,
    decreases n,
{
    if n >= 10 {
        lemma_decimal_digits(n / 10);
        let p = decimal(n / 10);
        assert forall|k: int| 0 <= k < decimal(n).len() implies 48 <= #[trigger] decimal(n)[k]
            <= 57 by {
            if k < p.len() {
                assert(decimal(n)[k] == p[k]);
            }
        }
    }
}

/// The decimal form of a `usize` has at most twenty digits, and none is a newline.
proof fn lemma_decimal_usize(n: nat)
    requires
        n <= usize::MAX,
    ensures
        decimal(n).len() <= 20,
        forall|k: int| 0 <= k < decimal(n).len() ==> #[trigger] decimal(n)[k] != 10u8,
{
    lemma_decimal_digits(n);
    lemma_decimal_len_below(n, 20);
}

/// Ten to the power `k`.
pub open spec fn pow10(k: nat) -> nat
    decreases k,
{
    if k == 0 {
        1
    } else {
        10 * pow10((k - 1) as nat)
    }
}

/// A number below ten to the power `k` has at most `k` digits.
proof fn lemma_decimal_len_below(n: nat, k: nat)
    requires
        k >= 1,
        n < pow10(k) || (k == 20 && n <= usize::MAX),
    ensures
        decimal(n).len() <= k,
    decreases k,
{
    if k == 20 {
        assert(usize::MAX < pow10(20)) by {
            reveal_with_fuel(pow10, 21);
        }
    }
    if n >= 10 {
        assert(k >= 2) by {
            if k == 1 {
                reveal_with_fuel(pow10, 2);
            }
        }
        assert(n / 10 < pow10((k - 1) as nat)) by {
            assert(pow10(k) == 10 * pow10((k - 1) as nat));
        }
        lemma_decimal_len_below(n / 10, (k - 1) as nat);
    }
}

/// Appends the decimal digits of `n`.
fn push_decimal(out: &mut Vec<u8>, n: u64)
    ensures
        final(out)@ == old(out)@ + decimal(n as nat),
    decreases n,
{
    if n >= 10 {
        push_decimal(out, n / 10);
    }
    out.push((48 + n % 10) as u8);
    proof {
        if n >= 10 {
            assert(final(out)@ =~= old(out)@ + decimal(n as nat));
        } else {
            assert(final(out)@ =~= old(out)@ + decimal(n as nat));
        }
    }
}

/// A channel value has at most three digits.
proof fn lemma_decimal_len(n: nat)
    requires
        n <= 999,
    ensures
        1 <= decimal(n).len() <= 3,
    decreases n,
{
    if n >= 10 {
        let m = n / 10;
        lemma_decimal_len(m);
        if m >= 10 {
            assert(m / 10 < 10);
            assert(decimal(m / 10).len() == 1);
            assert(decimal(m).len() == 2);
        } else {
            assert(decimal(m).len() == 1);
        }
    }
}

/// The channel value of a color component.
pub fn channel(c: Fixed) -> (r: u64)
    ensures
        r == channel_value(c),
        r <= MAX_CHANNEL,
{
    let cl: i64 = if c.raw < 0 {
        0
    } else if c.raw > SCALE {
        SCALE
    } else {
        c.raw
    };
    let v: i64 = (cl * MAX_CHANNEL + SCALE / 2) / SCALE;
    assert(v <= MAX_CHANNEL) by (nonlinear_arith)
        requires
            0 <= cl <= 1_000_000,
            v == (cl * 255 + 500_000) / 1_000_000,
    ;
    assert(v >= 0) by (nonlinear_arith)
        requires
            0 <= cl,
            v == (cl * 255 + 500_000) / 1_000_000,
    ;
    v as u64
}

/// Components at or above one encode as 255, at or below zero as 0, and every
/// component encodes to a value from 0 to 255.
pub proof fn lemma_channel_clamps(c: Fixed)
    ensures
        0 <= channel_value(c) <= MAX_CHANNEL,
        c.raw >= SCALE ==> channel_value(c) == MAX_CHANNEL,
        c.raw <= 0 ==> channel_value(c) == 0,
{
    let cl = clamp_unit(c.raw as int);
    assert(0 <= (cl * 255 + 500_000) / 1_000_000 <= 255) by (nonlinear_arith)
        requires
            0 <= cl <= 1_000_000,
    ;
}

/// Appends one channel value to the current line, wrapping first where it would not fit.
fn push_channel(out: &mut Vec<u8>, c: Fixed, line_len: usize) -> (r: usize)
    requires
        line_len <= MAX_LINE_LEN,
    ensures
        final(out)@ == old(out)@ + piece(channel_value(c), line_len as int),
        r == next_len(channel_value(c), line_len as int),
        r <= MAX_LINE_LEN,
{
    let v = channel(c);
    let mut tok: Vec<u8> = Vec::new();
    push_decimal(&mut tok, v);
    proof {
        lemma_decimal_len(v as nat);
    }
    let tl = tok.len();
    let r: usize;
    if line_len == 0 {
        r = tl;
    } else if line_len + 1 + tl > MAX_LINE_LEN {
        out.push(10u8);
        r = tl;
    } else {
        out.push(32u8);
        r = line_len + 1 + tl;
    }
    out.append(&mut tok);
    proof {
        assert(final(out)@ =~= old(out)@ + piece(channel_value(c), line_len as int));
    }
    r
}

/// One step of the wrapping: the piece for value `i`, then the rest.
proof fn lemma_wrap_step(vals: Seq<int>, i: int, line_len: int)
    requires
        0 <= i < vals.len(),
    ensures
        wrap_from(vals, i, line_len) == piece(vals[i], line_len) + wrap_from(
            vals,
            i + 1,
            next_len(vals[i], line_len),
        ),
{
    reveal(wrap_from);
}

/// Past the last value only the final newline is left.
proof fn lemma_wrap_end(vals: Seq<int>, i: int, line_len: int)
    requires
        i >= vals.len(),
    ensures
        wrap_from(vals, i, line_len) == seq![10u8],
{
    reveal(wrap_from);
}

/// Three steps of the wrapping: the pieces for values `i`, `i + 1` and `i + 2`, then the rest.
proof fn lemma_wrap_three(vals: Seq<int>, i: int, len: int)
    requires
        0 <= i,
        i + 3 <= vals.len(),
    ensures
        ({
            let l1 = next_len(vals[i], len);
            let l2 = next_len(vals[i + 1], l1);
            let l3 = next_len(vals[i + 2], l2);
            wrap_from(vals, i, len) == piece(vals[i], len) + (piece(vals[i + 1], l1) + (piece(
                vals[i + 2],
                l2,
            ) + wrap_from(vals, i + 3, l3)))
        }),
{
    let l1 = next_len(vals[i], len);
    let l2 = next_len(vals[i + 1], l1);
    lemma_wrap_step(vals, i, len);
    lemma_wrap_step(vals, i + 1, l1);
    lemma_wrap_step(vals, i + 2, l2);
}

/// Value `3 * x + k` of row `y` is component `k` of the pixel at `(x, y)`.
proof fn lemma_row_value(c: Canvas, x: int, y: int, k: int)
    requires
        0 <= x < c.width,
        0 <= k < 3,
    ensures
        0 <= 3 * x + k < row_values(c, y).len(),
        row_values(c, y)[3 * x + k] == channel_value(component(c.pixel(x, y), k)),
{
    let i = 3 * x + k;
    assert(i / 3 == x && i % 3 == k) by (nonlinear_arith)
        requires
            i == 3 * x + k,
            0 <= k < 3,
    ;
    assert(i < 3 * c.width) by (nonlinear_arith)
        requires
            i == 3 * x + k,
            0 <= k < 3,
            x + 1 <= c.width,
    ;
}

impl Canvas {
    /// Appends the lines of row `y`.
    fn push_row(&self, out: &mut Vec<u8>, y: usize)
        requires
            self.wf(),
            y < self.height,
        ensures
            final(out)@ == old(out)@ + wrap_from(row_values(*self, y as int), 0, 0),
    {
        let ghost vals = row_values(*self, y as int);
        let mut line_len: usize = 0;
        let mut x: usize = 0;
        while x < self.width
            invariant
                self.wf(),
                y < self.height,
                vals == row_values(*self, y as int),
                x <= self.width,
                line_len <= MAX_LINE_LEN,
                out@ + wrap_from(vals, 3 * x, line_len as int) == old(out)@ + wrap_from(
                    vals,
                    0,
                    0,
                ),
            decreases self.width - x,
        {
            let ghost before = out@;
            let ghost i = 3 * x as int;
            let p = self.pixel_at(x, y);
            proof {
                lemma_row_value(*self, x as int, y as int, 0);
                lemma_row_value(*self, x as int, y as int, 1);
                lemma_row_value(*self, x as int, y as int, 2);
            }
            let l1 = push_channel(out, p.r, line_len);
            let l2 = push_channel(out, p.g, l1);
            let l3 = push_channel(out, p.b, l2);
            proof {
                lemma_wrap_three(vals, i, line_len as int);
                assert(out@ + wrap_from(vals, i + 3, l3 as int) =~= before + wrap_from(
                    vals,
                    i,
                    line_len as int,
                ));
            }
            line_len = l3;
            x = x + 1;
        }
        out.push(10u8);
        proof {
            lemma_wrap_end(vals, 3 * x as int, line_len as int);
        }
    }

    /// Encodes the canvas as a plain-text PPM image.
    pub fn to_ppm(&self) -> (out: Vec<u8>)
        requires
            self.wf(),
        ensures
            out@ == ppm(*self),
    {
        let mut out: Vec<u8> = Vec::new();
        out.push(80u8);
        out.push(51u8);
        out.push(10u8);
        push_decimal(&mut out, self.width as u64);
        out.push(32u8);
        push_decimal(&mut out, self.height as u64);
        out.push(10u8);
        out.push(50u8);
        out.push(53u8);
        out.push(53u8);
        out.push(10u8);
        assert(out@ =~= header(*self));
        let mut y: usize = 0;
        while y < self.height
            invariant
                self.wf(),
                y <= self.height,
                out@ + rows_from(*self, y as int) == ppm(*self),
            decreases self.height - y,
        {
            let ghost before = out@;
            self.push_row(&mut out, y);
            assert(out@ + rows_from(*self, y + 1) =~= before + rows_from(*self, y as int));
            y = y + 1;
        }
        assert(out@ =~= ppm(*self));
        out
    }
}

} // verus!
