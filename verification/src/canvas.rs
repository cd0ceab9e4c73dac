//! The pixel buffer a render is aggregated into.
//!
//! A canvas is a `width` × `height` grid of colors, stored row-major and
//! default-initialized to black. Writes outside the bounds are silently
//! ignored: floating-point rounding at the image border can legitimately
//! produce a coordinate a fraction of a pixel out of range, and such a write
//! must be a benign no-op rather than an error.

use vstd::prelude::*;

use crate::color::Color;
use crate::color::spec_black;

verus! {

/// A width × height buffer of colors, row-major.
#[derive(Clone, Debug)]
pub struct Canvas {
    pub width: usize,
    pub height: usize,
    pub data: Vec<Color>,
}

/// The grid after one bounds-checked write: pixel (x, y) becomes `c` when the
/// coordinate is inside the width × height rectangle, and nothing changes
/// otherwise.
pub open spec fn write_at(
    grid: Seq<Color>,
    width: int,
    height: int,
    x: int,
    y: int,
    c: Color,
) -> Seq<Color> {
    if 0 <= x < width && 0 <= y < height {
        grid.update(y * width + x, c)
    } else {
        grid
    }
}

/// A row-major index stays inside a width × height grid.
pub proof fn lemma_row_major_index_in_bounds(width: int, height: int, x: int, y: int)
    requires
        0 <= x < width,
        0 <= y < height,
    ensures
        0 <= y * width + x < width * height,
{
    assert(0 <= y * width + x < width * height) by (nonlinear_arith)
        requires
            0 <= x < width,
            0 <= y < height,
    ;
}

/// One pixel of finished work, as a render worker hands it back to the
/// aggregator.
#[derive(Clone, Copy, Debug, PartialEq, Eq, Structural)]
pub struct PixelWrite {
    pub x: usize,
    pub y: usize,
    pub color: Color,
}

/// The grid after a batch of bounds-checked writes, applied first to last.
pub open spec fn apply_writes_at(
    grid: Seq<Color>,
    width: int,
    height: int,
    ws: Seq<PixelWrite>,
) -> Seq<Color>
    decreases ws.len(),
{
    if ws.len() == 0 {
        grid
    } else {
        write_at(
            apply_writes_at(grid, width, height, ws.drop_last()),
            width,
            height,
            ws.last().x as int,
            ws.last().y as int,
            ws.last().color,
        )
    }
}

/// The color of the last write in the batch aimed at (x, y), if any.
pub open spec fn last_write_to(ws: Seq<PixelWrite>, x: int, y: int) -> Option<Color>
    decreases ws.len(),
{
    if ws.len() == 0 {
        None
    } else if ws.last().x == x && ws.last().y == y {
        Some(ws.last().color)
    } else {
        last_write_to(ws.drop_last(), x, y)
    }
}

/// No two writes in the batch aim at the same coordinate.
pub open spec fn writes_distinct(ws: Seq<PixelWrite>) -> bool {
    forall|k1: int, k2: int|
        0 <= k1 < k2 < ws.len() ==> !(ws[k1].x == ws[k2].x && ws[k1].y == ws[k2].y)
}

/// Applying a batch of writes keeps the size of the grid.
pub proof fn lemma_apply_writes_len(grid: Seq<Color>, width: int, height: int, ws: Seq<PixelWrite>)
    requires
        grid.len() == width * height,
    ensures
        apply_writes_at(grid, width, height, ws).len() == grid.len(),
    decreases ws.len(),
{
    if ws.len() > 0 {
        lemma_apply_writes_len(grid, width, height, ws.drop_last());
        let last = ws.last();
        let lx = last.x as int;
        let ly = last.y as int;
        if 0 <= lx < width && 0 <= ly < height {
            lemma_row_major_index_in_bounds(width, height, lx, ly);
        }
    }
}

/// Two coordinate pairs with the same row-major index are the same pair.
pub proof fn lemma_row_major_index_injective(
    width: int,
    x1: int,
    y1: int,
    x2: int,
    y2: int,
)
    requires
        0 <= x1 < width,
        0 <= x2 < width,
        0 <= y1,
        0 <= y2,
        y1 * width + x1 == y2 * width + x2,
    ensures
        x1 == x2,
        y1 == y2,
{
    assert(x1 == x2 && y1 == y2) by (nonlinear_arith)
        requires
            0 <= x1 < width,
            0 <= x2 < width,
            0 <= y1,
            0 <= y2,
            y1 * width + x1 == y2 * width + x2,
    ;
}

/// What a batch of writes leaves at an in-bounds pixel: the last write aimed
/// there, or the original color when none was.
pub proof fn lemma_apply_writes_pixel(
    grid: Seq<Color>,
    width: int,
    height: int,
    ws: Seq<PixelWrite>,
    x: int,
    y: int,
)
    requires
        grid.len() == width * height,
        0 <= x < width,
        0 <= y < height,
    ensures
        apply_writes_at(grid, width, height, ws)[y * width + x] == (match last_write_to(ws, x, y) {
            Some(c) => c,
            None => grid[y * width + x],
        }),
    decreases ws.len(),
{
    lemma_row_major_index_in_bounds(width, height, x, y);
    if ws.len() > 0 {
        lemma_apply_writes_pixel(grid, width, height, ws.drop_last(), x, y);
        lemma_apply_writes_len(grid, width, height, ws.drop_last());
        let last = ws.last();
        let lx = last.x as int;
        let ly = last.y as int;
        if 0 <= lx < width && 0 <= ly < height {
            lemma_row_major_index_in_bounds(width, height, lx, ly);
            if !(lx == x && ly == y) {
                if ly * width + lx == y * width + x {
                    lemma_row_major_index_injective(width, lx, ly, x, y);
                }
            }
        }
    }
}

/// A batch that writes some color to (x, y) contains a write aimed there, and
/// when no two writes share a coordinate, any write the batch contains is the
/// one its coordinate receives.
pub proof fn lemma_last_write_membership(ws: Seq<PixelWrite>, x: int, y: int)
    ensures
        last_write_to(ws, x, y) is Some ==> exists|k: int|
            0 <= k < ws.len() && ws[k].x == x && ws[k].y == y && ws[k].color == last_write_to(
                ws,
                x,
                y,
            )->Some_0,
        last_write_to(ws, x, y) is None ==> forall|k: int|
            0 <= k < ws.len() ==> !(ws[k].x == x && ws[k].y == y),
        writes_distinct(ws) ==> forall|k: int|
            0 <= k < ws.len() && ws[k].x == x && ws[k].y == y ==> last_write_to(ws, x, y) == Some(
                ws[k].color,
            ),
    decreases ws.len(),
{
    if ws.len() > 0 {
        let prefix = ws.drop_last();
        lemma_last_write_membership(prefix, x, y);
        assert(forall|k: int| 0 <= k < prefix.len() ==> prefix[k] == ws[k]);
        assert(writes_distinct(ws) ==> writes_distinct(prefix));
    }
}

/// The law behind the parallel renderer's determinism: when every pixel is
/// written at most once, the canvas that a batch of writes produces does not
/// depend on the order in which they arrive, only on which writes were made.
pub proof fn lemma_apply_writes_order_independent(
    grid: Seq<Color>,
    width: int,
    height: int,
    ws1: Seq<PixelWrite>,
    ws2: Seq<PixelWrite>,
)
    requires
        width >= 0,
        height >= 0,
        grid.len() == width * height,
        ws1.to_multiset() == ws2.to_multiset(),
        writes_distinct(ws1),
        writes_distinct(ws2),
    ensures
        apply_writes_at(grid, width, height, ws1) == apply_writes_at(grid, width, height, ws2),
{
    broadcast use vstd::seq_lib::group_to_multiset_ensures;

    let r1 = apply_writes_at(grid, width, height, ws1);
    let r2 = apply_writes_at(grid, width, height, ws2);
    lemma_apply_writes_len(grid, width, height, ws1);
    lemma_apply_writes_len(grid, width, height, ws2);
    assert forall|x: int, y: int| 0 <= x < width && 0 <= y < height implies last_write_to(
        ws1,
        x,
        y,
    ) == last_write_to(ws2, x, y) by {
        lemma_last_write_membership(ws1, x, y);
        lemma_last_write_membership(ws2, x, y);
        match last_write_to(ws1, x, y) {
            Some(c) => {
                let k = choose|k: int|
                    0 <= k < ws1.len() && ws1[k].x == x && ws1[k].y == y && ws1[k].color == c;
                assert(ws1.contains(ws1[k]));
                assert(ws1.to_multiset().count(ws1[k]) > 0);
                assert(ws2.to_multiset().count(ws1[k]) > 0);
                assert(ws2.contains(ws1[k]));
            },
            None => {
                if last_write_to(ws2, x, y) is Some {
                    let c2 = last_write_to(ws2, x, y)->Some_0;
                    let k = choose|k: int|
                        0 <= k < ws2.len() && ws2[k].x == x && ws2[k].y == y && ws2[k].color == c2;
                    assert(ws2.contains(ws2[k]));
                    assert(ws2.to_multiset().count(ws2[k]) > 0);
                    assert(ws1.to_multiset().count(ws2[k]) > 0);
                    assert(ws1.contains(ws2[k]));
                }
            },
        }
    }
    assert forall|idx: int| 0 <= idx < r1.len() implies r1[idx] == r2[idx] by {
        if width > 0 {
            let x = idx % width;
            let y = idx / width;
            assert(0 <= x < width && 0 <= y < height && y * width + x == idx) by (nonlinear_arith)
                requires
                    width > 0,
                    height >= 0,
                    0 <= idx < width * height,
                    x == idx % width,
                    y == idx / width,
            ;
            lemma_apply_writes_pixel(grid, width, height, ws1, x, y);
            lemma_apply_writes_pixel(grid, width, height, ws2, x, y);
        } else {
            assert(width * height <= 0) by (nonlinear_arith)
                requires
                    width <= 0,
                    height >= 0,
            ;
        }
    }
    assert(r1 =~= r2);
}

impl View for Canvas {
    type V = Seq<Color>;

    open spec fn view(&self) -> Seq<Color> {
        self.data@
    }
}

impl Canvas {
    /// Always true of a canvas built by `new` and kept by every method.
    pub open spec fn wf(self) -> bool {
        self.data@.len() == self.width * self.height
    }

    /// The color at an in-bounds coordinate.
    pub open spec fn spec_pixel(self, x: int, y: int) -> Color {
        self.data@[y * self.width + x]
    }

    /// A fresh canvas: every pixel black.
    pub fn new(width: usize, height: usize) -> (c: Canvas)
        requires
            width * height <= usize::MAX,
        ensures
            c.wf(),
            c.width == width,
            c.height == height,
            forall|i: int| 0 <= i < c@.len() ==> c@[i] == spec_black(),
    {
        let n = width * height;
        let mut data: Vec<Color> = Vec::new();
        let mut i: usize = 0;
        while i < n
            invariant
                i <= n,
                data@.len() == i,
                forall|k: int| 0 <= k < i ==> data@[k] == spec_black(),
            decreases n - i,
        {
            data.push(Color::black());
            i = i + 1;
        }
        Canvas { width, height, data }
    }

    /// How many pixels the canvas holds.
    pub fn data_size(&self) -> (n: usize)
        ensures
            n == self@.len(),
    {
        self.data.len()
    }

    /// Read the color at an in-bounds coordinate.
    pub fn pixel_at(&self, x: usize, y: usize) -> (c: Color)
        requires
            self.wf(),
            x < self.width,
            y < self.height,
        ensures
            c == self.spec_pixel(x as int, y as int),
    {
        let n = self.data.len();
        proof {
            lemma_row_major_index_in_bounds(
                self.width as int,
                self.height as int,
                x as int,
                y as int,
            );
            assert(y * self.width + x < n);
        }
        self.data[y * self.width + x]
    }

    /// Write one pixel; a coordinate outside the canvas is ignored.
    pub fn write_pixel(&mut self, x: usize, y: usize, color: Color)
        requires
            old(self).wf(),
        ensures
            final(self).wf(),
            final(self).width == old(self).width,
            final(self).height == old(self).height,
            final(self)@ == write_at(
                old(self)@,
                old(self).width as int,
                old(self).height as int,
                x as int,
                y as int,
                color,
            ),
    {
        if x < self.width && y < self.height {
            let n = self.data.len();
            proof {
                lemma_row_major_index_in_bounds(
                    self.width as int,
                    self.height as int,
                    x as int,
                    y as int,
                );
                assert(y * self.width + x < n);
            }
            let i = y * self.width + x;
            self.data[i] = color;
        }
    }

    /// Drain a batch of per-pixel results into the canvas, first to last.
    pub fn apply_writes(&mut self, ws: &Vec<PixelWrite>)
        requires
            old(self).wf(),
        ensures
            final(self).wf(),
            final(self).width == old(self).width,
            final(self).height == old(self).height,
            final(self)@ == apply_writes_at(
                old(self)@,
                old(self).width as int,
                old(self).height as int,
                ws@,
            ),
    {
        let mut k: usize = 0;
        while k < ws.len()
            invariant
                k <= ws.len(),
                self.wf(),
                self.width == old(self).width,
                self.height == old(self).height,
                self@ == apply_writes_at(
                    old(self)@,
                    old(self).width as int,
                    old(self).height as int,
                    ws@.take(k as int),
                ),
            decreases ws.len() - k,
        {
            let w = ws[k];
            self.write_pixel(w.x, w.y, w.color);
            proof {
                let taken = ws@.take(k + 1 as int);
                assert(taken.drop_last() =~= ws@.take(k as int));
                assert(taken.last() == ws@[k as int]);
            }
            k = k + 1;
        }
        proof {
            assert(ws@.take(ws@.len() as int) =~= ws@);
        }
    }

    /// Fill a rectangle of pixels with one color; the part of the rectangle
    /// that falls outside the canvas is ignored, pixel by pixel.
    pub fn write_rect(&mut self, x: usize, y: usize, w: usize, h: usize, color: Color)
        requires
            old(self).wf(),
            x + w <= usize::MAX,
            y + h <= usize::MAX,
        ensures
            final(self).wf(),
            final(self).width == old(self).width,
            final(self).height == old(self).height,
            final(self)@.len() == old(self)@.len(),
            forall|px: int, py: int|
                0 <= px < old(self).width && 0 <= py < old(self).height
                    ==> final(self).spec_pixel(px, py) == (if x <= px < x + w && y <= py < y + h {
                        color
                    } else {
                        old(self).spec_pixel(px, py)
                    }),
    {
        let x_end = x + w;
        let y_end = y + h;
        let mut i = x;
        while i < x_end
            invariant
                self.wf(),
                self.width == old(self).width,
                self.height == old(self).height,
                self@.len() == old(self)@.len(),
                x <= i <= x_end,
                y <= y_end,
                forall|px: int, py: int|
                    0 <= px < self.width && 0 <= py < self.height
                        ==> self.spec_pixel(px, py) == (if x <= px < i && y <= py < y_end {
                            color
                        } else {
                            old(self).spec_pixel(px, py)
                        }),
            decreases x_end - i,
        {
            let mut j = y;
            while j < y_end
                invariant
                    self.wf(),
                    self.width == old(self).width,
                    self.height == old(self).height,
                    self@.len() == old(self)@.len(),
                    x <= i < x_end,
                    y <= j <= y_end,
                    y <= y_end,
                    forall|px: int, py: int|
                        0 <= px < self.width && 0 <= py < self.height
                            ==> self.spec_pixel(px, py) == (if (x <= px < i && y <= py < y_end)
                                || (px == i && y <= py < j) {
                                color
                            } else {
                                old(self).spec_pixel(px, py)
                            }),
                decreases y_end - j,
            {
                let ghost prev = *self;
                self.write_pixel(i, j, color);
                proof {
                    let wd = self.width as int;
                    let ht = self.height as int;
                    let iw = i as int;
                    let jw = j as int;
                    if i < self.width && j < self.height {
                        lemma_row_major_index_in_bounds(wd, ht, iw, jw);
                    }
                    assert forall|px: int, py: int| 0 <= px < wd && 0 <= py < ht implies
                        self.spec_pixel(px, py) == (if (x <= px < iw && y <= py < y_end) || (px
                            == iw && y <= py < jw + 1) {
                            color
                        } else {
                            old(self).spec_pixel(px, py)
                        }) by {
                        lemma_row_major_index_in_bounds(wd, ht, px, py);
                        assert(prev.spec_pixel(px, py) == (if (x <= px < iw && y <= py < y_end)
                            || (px == iw && y <= py < jw) {
                            color
                        } else {
                            old(self).spec_pixel(px, py)
                        }));
                        if i < self.width && j < self.height {
                            if px == iw && py == jw {
                                assert(self.spec_pixel(px, py) == color);
                            } else {
                                if py * wd + px == jw * wd + iw {
                                    lemma_row_major_index_injective(wd, px, py, iw, jw);
                                }
                                assert(self.spec_pixel(px, py) == prev.spec_pixel(px, py));
                            }
                        } else {
                            assert(self.spec_pixel(px, py) == prev.spec_pixel(px, py));
                        }
                    }
                }
                j = j + 1;
            }
            i = i + 1;
        }
    }
}

} // verus!
