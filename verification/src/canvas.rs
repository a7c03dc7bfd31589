//! A pixel grid the renderer writes into.

use vstd::prelude::*;
use crate::color::Color;

verus! {

/// A grid of `width * height` pixels in row-major order.
#[derive(Debug)]
pub struct Canvas {
    width: usize,
    height: usize,
    pixels: Vec<Color>,
}

impl View for Canvas {
    type V = Seq<Color>;

    closed spec fn view(&self) -> Seq<Color> {
        self.pixels@
    }
}

impl Canvas {
    pub closed spec fn spec_width(&self) -> int {
        self.width as int
    }

    pub closed spec fn spec_height(&self) -> int {
        self.height as int
    }

    /// One pixel slot for every grid cell, and a grid the machine can
    /// index.
    pub open spec fn wf(&self) -> bool {
        self@.len() == self.spec_width() * self.spec_height() && self.spec_width()
            * self.spec_height() <= 1_600_000_000
    }

    /// A canvas of the given size, all pixels black.
    pub fn new(width: usize, height: usize) -> (c: Canvas)
        requires
            width <= 40_000,
            height <= 40_000,
        ensures
            c.wf(),
            c.spec_width() == width,
            c.spec_height() == height,
            forall|i: int| 0 <= i < c@.len() ==> c@[i] == (Color { r: 0i64, g: 0i64, b: 0i64 }),
    {
        proof {
            assert((width as int) * (height as int) <= 1_600_000_000int) by (nonlinear_arith)
                requires
                    width <= 40_000,
                    height <= 40_000,
            ;
        }
        let n: usize = width * height;
        let mut pixels: Vec<Color> = Vec::new();
        let mut i: usize = 0;
        while i < n
            invariant
                i <= n,
                pixels@.len() == i,
                forall|j: int| 0 <= j < i ==> pixels@[j] == (Color { r: 0i64, g: 0i64, b: 0i64 }),
            decreases n - i,
        {
            pixels.push(Color { r: 0, g: 0, b: 0 });
            i = i + 1;
        }
        Canvas { width, height, pixels }
    }

    pub fn width(&self) -> (w: usize)
        ensures
            w == self.spec_width(),
    {
        self.width
    }

    pub fn height(&self) -> (h: usize)
        ensures
            h == self.spec_height(),
    {
        self.height
    }

    /// Stores `c` at `(x, y)`.
    pub fn write_pixel(&mut self, x: usize, y: usize, c: Color)
        requires
            old(self).wf(),
            x < old(self).spec_width(),
            y < old(self).spec_height(),
        ensures
            final(self).wf(),
            final(self).spec_width() == old(self).spec_width(),
            final(self).spec_height() == old(self).spec_height(),
            final(self)@ == old(self)@.update(
                y * old(self).spec_width() + x,
                c,
            ),
    {
        proof {
            lemma_index_in_grid(x as int, y as int, self.width as int, self.height as int);
        }
        let idx: usize = y * self.width + x;
        self.pixels.set(idx, c);
    }

    /// The pixel stored at `(x, y)`.
    pub fn pixel_at(&self, x: usize, y: usize) -> (c: Color)
        requires
            self.wf(),
            x < self.spec_width(),
            y < self.spec_height(),
        ensures
            c == self@[y * self.spec_width() + x],
    {
        proof {
            lemma_index_in_grid(x as int, y as int, self.width as int, self.height as int);
        }
        self.pixels[y * self.width + x]
    }
}

/// A row-major index lies inside the grid.
pub proof fn lemma_index_in_grid(x: int, y: int, w: int, h: int)
    requires
        0 <= x < w,
        0 <= y < h,
    ensures
        0 <= y * w + x < w * h,
{
    assert(0 <= y * w + x < w * h) by (nonlinear_arith)
        requires
            0 <= x < w,
            0 <= y < h,
    ;
}

} // verus!
