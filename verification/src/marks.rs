//! Optional "Set-of-Marks" overlay: numbered boxes drawn onto the screenshot so a vision
//! model can correlate ids with on-screen elements by picking a number. This module
//! draws in pixel coordinates; scaling from screen points is the caller's.
use vstd::prelude::*;

use crate::text::{decimal, digit_char, push_u64};

verus! {

/// An RGBA image being drawn on (an `image::RgbaImage`).
#[verifier::external_body]
pub struct Canvas {
    img: image::RgbaImage,
}

/// The width and height the canvas was made with.
pub uninterp spec fn canvas_size(c: Canvas) -> (u32, u32);

/// The canvas's pixels as RGBA bytes, row by row, four bytes per pixel.
pub uninterp spec fn canvas_bytes(c: Canvas) -> Seq<u8>;

/// `b` with the pixel at column `u`, row `v` of an image `width` pixels wide set to `c`.
pub open spec fn with_pixel(b: Seq<u8>, width: u32, u: u32, v: u32, c: Seq<u8>) -> Seq<u8> {
    let i = 4 * (v * width + u);
    b.update(i, c[0]).update(i + 1, c[1]).update(i + 2, c[2]).update(i + 3, c[3])
}

impl Canvas {
    /// Calls `image::ImageBuffer::from_raw` for RGBA bytes. Claims: a canvas is made exactly
    /// when the buffer holds at least 4·width·height bytes; it has that size and those
    /// bytes.
    #[verifier::external_body]
    pub(crate) fn from_raw(width: u32, height: u32, bytes: Vec<u8>) -> (r: Option<Canvas>)
        ensures
            r is Some <==> 4 * width * height <= bytes@.len(),
            r matches Some(c) ==> canvas_size(c) == (width, height) && canvas_bytes(c) == bytes@,
    {
        image::RgbaImage::from_raw(width, height, bytes).map(|img| Canvas { img })
    }

    /// Calls `image::ImageBuffer::into_raw`. Claims: the bytes are the canvas's bytes.
    #[verifier::external_body]
    pub(crate) fn into_raw(self) -> (r: Vec<u8>)
        ensures
            r@ == canvas_bytes(self),
    {
        self.img.into_raw()
    }

    /// Calls `image::ImageBuffer::width`. Claims: the width the canvas was made with.
    #[verifier::external_body]
    pub(crate) fn width(&self) -> (r: u32)
        ensures
            r == canvas_size(*self).0,
    {
        self.img.width()
    }

    /// Calls `image::ImageBuffer::height`. Claims: the height the canvas was made with.
    #[verifier::external_body]
    pub(crate) fn height(&self) -> (r: u32)
        ensures
            r == canvas_size(*self).1,
    {
        self.img.height()
    }

    /// Calls `image::ImageBuffer::put_pixel` with an `image::Rgba`. Claims: the size is
    /// unchanged and the four bytes of that pixel become the color. The crate panics
    /// outside the image; `requires` leaves that out.
    #[verifier::external_body]
    pub(crate) fn put_pixel(&mut self, x: u32, y: u32, color: [u8; 4])
        requires
            x < canvas_size(*old(self)).0,
            y < canvas_size(*old(self)).1,
        ensures
            canvas_size(*final(self)) == canvas_size(*old(self)),
            canvas_bytes(*final(self)) == with_pixel(
                canvas_bytes(*old(self)),
                canvas_size(*old(self)).0,
                x,
                y,
                color@,
            ),
    {
        self.img.put_pixel(x, y, image::Rgba(color))
    }
}

impl Canvas {
    /// A canvas of the given size over RGBA bytes, row by row; `None` when there are fewer
    /// than 4·width·height bytes.
    pub fn from_rgba(width: u32, height: u32, bytes: Vec<u8>) -> (r: Option<Canvas>)
        ensures
            r is Some <==> 4 * width * height <= bytes@.len(),
            r matches Some(c) ==> canvas_size(c) == (width, height) && canvas_bytes(c) == bytes@,
    {
        Canvas::from_raw(width, height, bytes)
    }

    /// The canvas's RGBA bytes.
    pub fn into_rgba(self) -> (r: Vec<u8>)
        ensures
            r@ == canvas_bytes(self),
    {
        self.into_raw()
    }

    /// The canvas's width and height.
    pub fn size(&self) -> (r: (u32, u32))
        ensures
            r == canvas_size(*self),
    {
        (self.width(), self.height())
    }
}

// ---------------------------------------------------------------------------------
// Painting points.
// ---------------------------------------------------------------------------------

/// Whether a point lands in an image of this size: non-negative coordinates whose `u32`
/// truncations are inside.
pub open spec fn lands(p: (int, int), size: (u32, u32)) -> bool {
    p.0 >= 0 && p.1 >= 0 && (p.0 as u32) < size.0 && (p.1 as u32) < size.1
}

/// The bytes after painting the points in order with one color; points that do not land
/// are skipped.
pub open spec fn paint(b: Seq<u8>, size: (u32, u32), pts: Seq<(int, int)>, c: Seq<u8>) -> Seq<u8>
    decreases pts.len(),
{
    if pts.len() == 0 {
        b
    } else {
        let before = paint(b, size, pts.drop_last(), c);
        let p = pts.last();
        if lands(p, size) {
            with_pixel(before, size.0, p.0 as u32, p.1 as u32, c)
        } else {
            before
        }
    }
}

/// Painting two runs of points is painting their concatenation.
pub proof fn lemma_paint_concat(b: Seq<u8>, size: (u32, u32), a: Seq<(int, int)>, d: Seq<(int, int)>, c: Seq<u8>)
    ensures
        paint(b, size, a + d, c) == paint(paint(b, size, a, c), size, d, c),
    decreases d.len(),
{
    if d.len() == 0 {
        assert(a + d =~= a);
    } else {
        lemma_paint_concat(b, size, a, d.drop_last(), c);
        assert((a + d).drop_last() =~= a + d.drop_last());
        assert((a + d).last() == d.last());
    }
}

/// Sets one pixel, if the point lands on the canvas.
pub fn put(img: &mut Canvas, x: i64, y: i64, color: [u8; 4])
    ensures
        canvas_size(*final(img)) == canvas_size(*old(img)),
        canvas_bytes(*final(img)) == paint(
            canvas_bytes(*old(img)),
            canvas_size(*old(img)),
            seq![(x as int, y as int)],
            color@,
        ),
{
    let ghost pts = seq![(x as int, y as int)];
    assert(pts.drop_last() =~= Seq::<(int, int)>::empty());
    assert(pts.last() == (x as int, y as int));
    assert(paint(canvas_bytes(*img), canvas_size(*img), Seq::<(int, int)>::empty(), color@) == canvas_bytes(*img));
    if x >= 0 && y >= 0 && (x as u32) < img.width() && (y as u32) < img.height() {
        img.put_pixel(x as u32, y as u32, color);
    }
}

// ---------------------------------------------------------------------------------
// Rectangles.
// ---------------------------------------------------------------------------------

/// Layer `i` of a rectangle outline: along the top and bottom rows (column by column,
/// top then bottom), then along the left and right columns (row by row, left then right).
pub open spec fn rect_layer(x: int, y: int, w: int, h: int, i: int) -> Seq<(int, int)> {
    Seq::new((2 * w) as nat, |k: int| if k % 2 == 0 { (x + k / 2, y + i) } else { (x + k / 2, y + h - 1 - i) })
        + Seq::new((2 * h) as nat, |k: int| if k % 2 == 0 { (x + i, y + k / 2) } else { (x + w - 1 - i, y + k / 2) })
}

/// The first `n` layers of a rectangle outline.
pub open spec fn rect_layers(x: int, y: int, w: int, h: int, n: int) -> Seq<(int, int)>
    decreases n,
{
    if n <= 0 {
        seq![]
    } else {
        rect_layers(x, y, w, h, n - 1) + rect_layer(x, y, w, h, n - 1)
    }
}

/// The points of a `t`-pixel-thick outline of the `w`×`h` rectangle at (`x`, `y`), in
/// drawing order; none for an empty rectangle.
pub open spec fn rect_points(x: int, y: int, w: int, h: int, t: int) -> Seq<(int, int)> {
    if w <= 0 || h <= 0 {
        seq![]
    } else {
        rect_layers(x, y, w, h, t)
    }
}

/// Draws the `t`-pixel-thick outline of a rectangle; the parts outside the canvas are
/// skipped. The arithmetic on coordinates must fit in `i64`.
pub fn draw_rect(img: &mut Canvas, x: i64, y: i64, w: i64, h: i64, color: [u8; 4], t: i64)
    requires
        w > 0 && h > 0 && t > 0 ==> x + w <= i64::MAX && y + h <= i64::MAX && x + t - 1 <= i64::MAX
            && y + t - 1 <= i64::MAX && x + w - t >= i64::MIN && y + h - t >= i64::MIN,
    ensures
        canvas_size(*final(img)) == canvas_size(*old(img)),
        canvas_bytes(*final(img)) == paint(
            canvas_bytes(*old(img)),
            canvas_size(*old(img)),
            rect_points(x as int, y as int, w as int, h as int, t as int),
            color@,
        ),
{
    let ghost size = canvas_size(*img);
    let ghost b0 = canvas_bytes(*img);
    assert(paint(b0, size, Seq::<(int, int)>::empty(), color@) == b0);
    if w <= 0 || h <= 0 || t <= 0 {
        return;
    }
    let ghost (xi, yi, wi, hi) = (x as int, y as int, w as int, h as int);
    let mut i: i64 = 0;
    while i < t
        invariant
            w > 0 && h > 0,
            x + w <= i64::MAX && y + h <= i64::MAX && x + t - 1 <= i64::MAX && y + t - 1 <= i64::MAX
                && x + w - t >= i64::MIN && y + h - t >= i64::MIN,
            0 <= i <= t,
            canvas_size(*img) == size,
            canvas_bytes(*img) == paint(b0, size, rect_layers(xi, yi, wi, hi, i as int), color@),
            (xi, yi, wi, hi) == (x as int, y as int, w as int, h as int),
        decreases t - i,
    {
        let ghost done = rect_layers(xi, yi, wi, hi, i as int);
        let ghost rows = Seq::new((2 * wi) as nat, |k: int| if k % 2 == 0 { (xi + k / 2, yi + i) } else { (xi + k / 2, yi + hi - 1 - i) });
        let ghost cols = Seq::new((2 * hi) as nat, |k: int| if k % 2 == 0 { (xi + i, yi + k / 2) } else { (xi + wi - 1 - i, yi + k / 2) });
        let mut dx: i64 = 0;
        assert(rows.take(0) =~= Seq::<(int, int)>::empty());
        proof {
            lemma_paint_concat(b0, size, done, rows.take(0), color@);
            assert(done + rows.take(0) =~= done);
        }
        while dx < w
            invariant
                w > 0 && h > 0,
                x + w <= i64::MAX && y + h <= i64::MAX && y + t - 1 <= i64::MAX && y + h - t >= i64::MIN,
                0 <= i < t,
                0 <= dx <= w,
                canvas_size(*img) == size,
                rows == Seq::new((2 * wi) as nat, |k: int| if k % 2 == 0 { (xi + k / 2, yi + i) } else { (xi + k / 2, yi + hi - 1 - i) }),
                canvas_bytes(*img) == paint(paint(b0, size, done, color@), size, rows.take(2 * dx), color@),
                (xi, yi, wi, hi) == (x as int, y as int, w as int, h as int),
            decreases w - dx,
        {
            let ghost before = canvas_bytes(*img);
            put(img, x + dx, y + i, color);
            put(img, x + dx, y + h - 1 - i, color);
            proof {
                let a = rows.take(2 * dx);
                assert(rows[2 * dx] == (xi + dx, yi + i));
                assert(rows[2 * dx + 1] == (xi + dx, yi + hi - 1 - i));
                assert(rows.take(2 * dx + 1) =~= a + seq![(xi + dx, yi + i)]);
                assert(rows.take(2 * dx + 2) =~= rows.take(2 * dx + 1) + seq![(xi + dx, yi + hi - 1 - i)]);
                lemma_paint_concat(paint(b0, size, done, color@), size, a, seq![(xi + dx, yi + i)], color@);
                lemma_paint_concat(paint(b0, size, done, color@), size, rows.take(2 * dx + 1), seq![(xi + dx, yi + hi - 1 - i)], color@);
                assert(rows.take(2 * (dx + 1)) == rows.take(2 * dx + 2));
            }
            dx += 1;
        }
        assert(rows.take(2 * wi) =~= rows);
        let mut dy: i64 = 0;
        assert(cols.take(0) =~= Seq::<(int, int)>::empty());
        while dy < h
            invariant
                w > 0 && h > 0,
                x + w <= i64::MAX && y + h <= i64::MAX && x + t - 1 <= i64::MAX && x + w - t >= i64::MIN,
                0 <= i < t,
                0 <= dy <= h,
                canvas_size(*img) == size,
                cols == Seq::new((2 * hi) as nat, |k: int| if k % 2 == 0 { (xi + i, yi + k / 2) } else { (xi + wi - 1 - i, yi + k / 2) }),
                canvas_bytes(*img) == paint(paint(paint(b0, size, done, color@), size, rows, color@), size, cols.take(2 * dy), color@),
                (xi, yi, wi, hi) == (x as int, y as int, w as int, h as int),
            decreases h - dy,
        {
            put(img, x + i, y + dy, color);
            put(img, x + w - 1 - i, y + dy, color);
            proof {
                let base = paint(paint(b0, size, done, color@), size, rows, color@);
                let a = cols.take(2 * dy);
                assert(cols[2 * dy] == (xi + i, yi + dy));
                assert(cols[2 * dy + 1] == (xi + wi - 1 - i, yi + dy));
                assert(cols.take(2 * dy + 1) =~= a + seq![(xi + i, yi + dy)]);
                assert(cols.take(2 * dy + 2) =~= cols.take(2 * dy + 1) + seq![(xi + wi - 1 - i, yi + dy)]);
                lemma_paint_concat(base, size, a, seq![(xi + i, yi + dy)], color@);
                lemma_paint_concat(base, size, cols.take(2 * dy + 1), seq![(xi + wi - 1 - i, yi + dy)], color@);
                assert(cols.take(2 * (dy + 1)) == cols.take(2 * dy + 2));
            }
            dy += 1;
        }
        proof {
            assert(cols.take(2 * hi) =~= cols);
            lemma_paint_concat(b0, size, done, rows, color@);
            lemma_paint_concat(b0, size, done + rows, cols, color@);
            assert(rect_layer(xi, yi, wi, hi, i as int) =~= rows + cols);
            assert(rect_layers(xi, yi, wi, hi, i + 1) =~= done + rows + cols);
        }
        i += 1;
    }
}

// ---------------------------------------------------------------------------------
// Numbers.
// ---------------------------------------------------------------------------------

/// Row `row` of the 3×5 glyph for digit `d`: the low three bits, most significant bit =
/// left column.
pub open spec fn glyph_row(d: int, row: int) -> u8 {
    let g: Seq<u8> = if d == 0 {
        seq![0b111, 0b101, 0b101, 0b101, 0b111]
    } else if d == 1 {
        seq![0b010, 0b110, 0b010, 0b010, 0b111]
    } else if d == 2 {
        seq![0b111, 0b001, 0b111, 0b100, 0b111]
    } else if d == 3 {
        seq![0b111, 0b001, 0b111, 0b001, 0b111]
    } else if d == 4 {
        seq![0b101, 0b101, 0b111, 0b001, 0b001]
    } else if d == 5 {
        seq![0b111, 0b100, 0b111, 0b001, 0b111]
    } else if d == 6 {
        seq![0b111, 0b100, 0b111, 0b101, 0b111]
    } else if d == 7 {
        seq![0b111, 0b001, 0b010, 0b010, 0b010]
    } else if d == 8 {
        seq![0b111, 0b101, 0b111, 0b101, 0b111]
    } else {
        seq![0b111, 0b101, 0b111, 0b001, 0b111]
    };
    g[row]
}

fn glyph(d: u32) -> (g: [u8; 5])
    requires
        d < 10,
    ensures
        forall|row: int| 0 <= row < 5 ==> g@[row] == glyph_row(d as int, row),
{
    let g: [u8; 5] = if d == 0 {
        [0b111, 0b101, 0b101, 0b101, 0b111]
    } else if d == 1 {
        [0b010, 0b110, 0b010, 0b010, 0b111]
    } else if d == 2 {
        [0b111, 0b001, 0b111, 0b100, 0b111]
    } else if d == 3 {
        [0b111, 0b001, 0b111, 0b001, 0b111]
    } else if d == 4 {
        [0b101, 0b101, 0b111, 0b001, 0b001]
    } else if d == 5 {
        [0b111, 0b100, 0b111, 0b001, 0b111]
    } else if d == 6 {
        [0b111, 0b100, 0b111, 0b101, 0b111]
    } else if d == 7 {
        [0b111, 0b001, 0b010, 0b010, 0b010]
    } else if d == 8 {
        [0b111, 0b101, 0b111, 0b101, 0b111]
    } else {
        [0b111, 0b101, 0b111, 0b001, 0b111]
    };
    g
}

/// Whether column `col` (0..=2, left to right) of a glyph row is lit.
pub open spec fn lit(bits: u8, col: int) -> bool {
    (bits & (4u8 >> (col as u8))) != 0
}

/// The points of a filled `w`-wide rectangle's first `upto` rows at (`x`, `y`), row by row.
pub open spec fn fill_points(x: int, y: int, w: int, upto: int) -> Seq<(int, int)>
    decreases upto,
{
    if upto <= 0 {
        seq![]
    } else {
        fill_points(x, y, w, upto - 1) + Seq::new(w as nat, |dx: int| (x + dx, y + upto - 1))
    }
}

/// The 3×3 block of a lit glyph cell at (`cx`, `cy`), row by row.
pub open spec fn cell_block(cx: int, cy: int) -> Seq<(int, int)> {
    fill_points(cx, cy, 3, 3)
}

/// Fills a `w`×`h` rectangle at (`x`, `y`), row by row; the parts outside the canvas are
/// skipped.
fn fill_rect(img: &mut Canvas, x: i64, y: i64, w: i64, h: i64, color: [u8; 4])
    requires
        w >= 0,
        h >= 0,
        x + w - 1 <= i64::MAX,
        y + h - 1 <= i64::MAX,
    ensures
        canvas_size(*final(img)) == canvas_size(*old(img)),
        canvas_bytes(*final(img)) == paint(
            canvas_bytes(*old(img)),
            canvas_size(*old(img)),
            fill_points(x as int, y as int, w as int, h as int),
            color@,
        ),
{
    let ghost size = canvas_size(*img);
    let ghost b0 = canvas_bytes(*img);
    assert(paint(b0, size, Seq::<(int, int)>::empty(), color@) == b0);
    let mut dy: i64 = 0;
    while dy < h
        invariant
            0 <= dy <= h,
            w >= 0,
            x + w - 1 <= i64::MAX,
            y + h - 1 <= i64::MAX,
            canvas_size(*img) == size,
            canvas_bytes(*img) == paint(b0, size, fill_points(x as int, y as int, w as int, dy as int), color@),
        decreases h - dy,
    {
        let ghost done = fill_points(x as int, y as int, w as int, dy as int);
        let ghost row = Seq::new(w as nat, |dx: int| (x + dx, y + dy));
        let mut dx: i64 = 0;
        proof {
            lemma_paint_concat(b0, size, done, row.take(0), color@);
            assert(done + row.take(0) =~= done);
        }
        while dx < w
            invariant
                0 <= dy < h,
                0 <= dx <= w,
                x + w - 1 <= i64::MAX,
                y + h - 1 <= i64::MAX,
                canvas_size(*img) == size,
                row == Seq::new(w as nat, |dx: int| (x + dx, y + dy)),
                canvas_bytes(*img) == paint(b0, size, done + row.take(dx as int), color@),
            decreases w - dx,
        {
            put(img, x + dx, y + dy, color);
            proof {
                assert(row[dx as int] == (x + dx, y + dy));
                assert(row.take(dx + 1) =~= row.take(dx as int) + seq![(x + dx, y + dy)]);
                assert(done + row.take(dx + 1) =~= (done + row.take(dx as int)) + seq![(x as int + dx, y as int + dy)]);
                lemma_paint_concat(b0, size, done + row.take(dx as int), seq![(x as int + dx, y as int + dy)], color@);
            }
            dx += 1;
        }
        proof {
            assert(row.take(w as int) =~= row);
            assert(fill_points(x as int, y as int, w as int, dy + 1) =~= done + row);
        }
        dy += 1;
    }
}

/// The foreground points of one glyph row: the lit columns' blocks, left to right.
pub open spec fn glyph_row_points(cx: int, y: int, bits: u8, row: int, upto: int) -> Seq<(int, int)>
    decreases upto,
{
    if upto <= 0 {
        seq![]
    } else {
        glyph_row_points(cx, y, bits, row, upto - 1) + if lit(bits, upto - 1) {
            cell_block(cx + (upto - 1) * 3, y + 1 + row * 3)
        } else {
            seq![]
        }
    }
}

/// The foreground points of the first `upto` rows of digit `d`'s glyph, whose left edge
/// is at `cx`.
pub open spec fn glyph_points(cx: int, y: int, d: int, upto: int) -> Seq<(int, int)>
    decreases upto,
{
    if upto <= 0 {
        seq![]
    } else {
        glyph_points(cx, y, d, upto - 1) + glyph_row_points(cx, y, glyph_row(d, upto - 1), upto - 1, 3)
    }
}

/// The value of a decimal digit character.
pub open spec fn digit_value(c: char) -> int {
    c as int - 48
}

/// The foreground points of the first `upto` digits of `digits`, drawn left to right
/// 10 columns apart starting one column in from `x`.
pub open spec fn digits_points(x: int, y: int, digits: Seq<char>, upto: int) -> Seq<(int, int)>
    decreases upto,
{
    if upto <= 0 {
        seq![]
    } else {
        digits_points(x, y, digits, upto - 1) + glyph_points(
            x + 1 + 10 * (upto - 1),
            y,
            digit_value(digits[upto - 1]),
            5,
        )
    }
}

/// The dark backing color.
pub open spec fn backing_color() -> Seq<u8> {
    seq![0u8, 0u8, 0u8, 220u8]
}

/// The digit color.
pub open spec fn digit_color() -> Seq<u8> {
    seq![255u8, 235u8, 40u8, 255u8]
}

fn draw_glyph_row(img: &mut Canvas, cx: i64, y: i64, bits: u8, row: i64, color: [u8; 4])
    requires
        0 <= row < 5,
        cx + 9 <= i64::MAX,
        y + 16 <= i64::MAX,
    ensures
        canvas_size(*final(img)) == canvas_size(*old(img)),
        canvas_bytes(*final(img)) == paint(
            canvas_bytes(*old(img)),
            canvas_size(*old(img)),
            glyph_row_points(cx as int, y as int, bits, row as int, 3),
            color@,
        ),
{
    let ghost size = canvas_size(*img);
    let ghost b0 = canvas_bytes(*img);
    assert(paint(b0, size, Seq::<(int, int)>::empty(), color@) == b0);
    let mut col: i64 = 0;
    while col < 3
        invariant
            0 <= col <= 3,
            0 <= row < 5,
            cx + 9 <= i64::MAX,
            y + 16 <= i64::MAX,
            canvas_size(*img) == size,
            canvas_bytes(*img) == paint(b0, size, glyph_row_points(cx as int, y as int, bits, row as int, col as int), color@),
        decreases 3 - col,
    {
        let ghost done = glyph_row_points(cx as int, y as int, bits, row as int, col as int);
        let on = bits & (4u8 >> (col as u8)) != 0;
        assert(on == lit(bits, col as int));
        if on {
            fill_rect(img, cx + col * 3, y + 1 + row * 3, 3, 3, color);
            proof {
                lemma_paint_concat(b0, size, done, cell_block(cx + col * 3, y + 1 + row * 3), color@);
            }
        } else {
            assert(done + Seq::<(int, int)>::empty() =~= done);
        }
        col += 1;
    }
}

fn draw_glyph(img: &mut Canvas, cx: i64, y: i64, d: u32, color: [u8; 4])
    requires
        d < 10,
        cx + 9 <= i64::MAX,
        y + 16 <= i64::MAX,
    ensures
        canvas_size(*final(img)) == canvas_size(*old(img)),
        canvas_bytes(*final(img)) == paint(
            canvas_bytes(*old(img)),
            canvas_size(*old(img)),
            glyph_points(cx as int, y as int, d as int, 5),
            color@,
        ),
{
    let ghost size = canvas_size(*img);
    let ghost b0 = canvas_bytes(*img);
    assert(paint(b0, size, Seq::<(int, int)>::empty(), color@) == b0);
    let g = glyph(d);
    let mut row: i64 = 0;
    while row < 5
        invariant
            0 <= row <= 5,
            d < 10,
            cx + 9 <= i64::MAX,
            y + 16 <= i64::MAX,
            forall|r: int| 0 <= r < 5 ==> g@[r] == glyph_row(d as int, r),
            canvas_size(*img) == size,
            canvas_bytes(*img) == paint(b0, size, glyph_points(cx as int, y as int, d as int, row as int), color@),
        decreases 5 - row,
    {
        let ghost done = glyph_points(cx as int, y as int, d as int, row as int);
        let bits = g[row as usize];
        draw_glyph_row(img, cx, y, bits, row, color);
        proof {
            lemma_paint_concat(b0, size, done, glyph_row_points(cx as int, y as int, glyph_row(d as int, row as int), row as int, 3), color@);
        }
        row += 1;
    }
}

/// 10 to the power `k`.
pub open spec fn pow10(k: nat) -> nat
    decreases k,
{
    if k == 0 {
        1
    } else {
        10 * pow10((k - 1) as nat)
    }
}

proof fn lemma_decimal_shape(n: nat, k: nat)
    requires
        n < pow10(k),
        k >= 1,
    ensures
        1 <= decimal(n).len() <= k,
        forall|j: int| 0 <= j < decimal(n).len() ==> 48 <= #[trigger] (decimal(n)[j] as int) <= 57,
    decreases n,
{
    if n >= 10 {
        assert(pow10(k) == 10 * pow10((k - 1) as nat));
        assert(n / 10 < pow10((k - 1) as nat));
        lemma_decimal_shape(n / 10, (k - 1) as nat);
        assert forall|j: int| 0 <= j < decimal(n).len() implies 48 <= #[trigger] (decimal(n)[j] as int) <= 57 by {
            if j < decimal(n).len() - 1 {
                assert(decimal(n)[j] == decimal(n / 10)[j]);
            } else {
                assert(decimal(n)[j] == digit_char(n % 10));
            }
        }
    } else {
        assert(decimal(n) == seq![digit_char(n)]);
    }
}

/// Draws the decimal number `n` at (`x`, `y`): a dark backing of 10·digits + 2 by 17
/// pixels, then each digit as a 3×5 glyph scaled 3×, in the digit color.
pub fn draw_number(img: &mut Canvas, n: usize, x: i64, y: i64)
    requires
        x + 10 * decimal(n as nat).len() + 1 <= i64::MAX,
        y + 16 <= i64::MAX,
    ensures
        canvas_size(*final(img)) == canvas_size(*old(img)),
        canvas_bytes(*final(img)) == paint(
            paint(
                canvas_bytes(*old(img)),
                canvas_size(*old(img)),
                fill_points(x as int, y as int, (10 * decimal(n as nat).len() + 2) as int, 17),
                backing_color(),
            ),
            canvas_size(*old(img)),
            digits_points(x as int, y as int, decimal(n as nat), decimal(n as nat).len() as int),
            digit_color(),
        ),
{
    let ghost size = canvas_size(*img);
    let ghost b0 = canvas_bytes(*img);
    let mut digits = String::new();
    push_u64(&mut digits, n as u64);
    let ds = crate::text::chars_of(digits.as_str());
    proof {
        assert(digits@ =~= decimal(n as nat));
        assert(pow10(20) == 100000000000000000000nat) by {
            reveal_with_fuel(pow10, 21);
        }
        lemma_decimal_shape(n as nat, 20);
    }
    let len = ds.len() as i64;
    let bg_w: i64 = 10 * len + 2;
    let bg: [u8; 4] = [0, 0, 0, 220];
    let fg: [u8; 4] = [255, 235, 40, 255];
    assert(bg@ =~= backing_color());
    assert(fg@ =~= digit_color());
    fill_rect(img, x, y, bg_w, 17, bg);
    let ghost b1 = canvas_bytes(*img);
    assert(paint(b1, size, Seq::<(int, int)>::empty(), fg@) == b1);
    let mut cx: i64 = x + 1;
    let mut j: usize = 0;
    while j < ds.len()
        invariant
            ds@ == decimal(n as nat),
            len == ds@.len(),
            1 <= len <= 20,
            forall|k: int| 0 <= k < ds@.len() ==> 48 <= #[trigger] (ds@[k] as int) <= 57,
            x + 10 * len + 1 <= i64::MAX,
            y + 16 <= i64::MAX,
            j <= ds@.len(),
            cx == x + 1 + 10 * j,
            fg@ == digit_color(),
            canvas_size(*img) == size,
            canvas_bytes(*img) == paint(b1, size, digits_points(x as int, y as int, ds@, j as int), fg@),
        decreases ds@.len() - j,
    {
        let ghost done = digits_points(x as int, y as int, ds@, j as int);
        let c = ds[j];
        assert(48 <= (c as int) <= 57);
        let d = (c as u32) - 48;
        assert(d as int == digit_value(c));
        draw_glyph(img, cx, y, d, fg);
        proof {
            lemma_paint_concat(b1, size, done, glyph_points(cx as int, y as int, d as int, 5), fg@);
        }
        cx += 10;
        j += 1;
    }
}

} // verus!
