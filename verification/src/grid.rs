//! The pixel grid that the brightness computations read.

use vstd::prelude::*;

verus! {

/// Four 8-bit channels of one pixel, in the order in which the grid stores them.
#[derive(Clone, Copy, Debug, PartialEq, Eq, Structural)]
pub struct Pixel {
    pub r: u8,
    pub g: u8,
    pub b: u8,
    pub a: u8,
}

/// A decoded, immutable raster image: `width * height` pixels in row-major order.
#[derive(Debug)]
pub struct PixelGrid {
    width: u32,
    height: u32,
    pixels: Vec<Pixel>,
}

impl View for PixelGrid {
    type V = Seq<Pixel>;

    /// The pixels row by row: the pixel at `(x, y)` stands at `y * width + x`.
    closed spec fn view(&self) -> Seq<Pixel> {
        self.pixels@
    }
}

impl PixelGrid {
    /// A grid holds exactly one pixel for each coordinate pair, and both
    /// dimensions fit in 32 bits.
    #[verifier::type_invariant]
    pub open spec fn wf(self) -> bool {
        &&& self@.len() == self.spec_width() * self.spec_height()
        &&& self.spec_width() <= u32::MAX
        &&& self.spec_height() <= u32::MAX
    }

    pub closed spec fn spec_width(self) -> nat {
        self.width as nat
    }

    pub closed spec fn spec_height(self) -> nat {
        self.height as nat
    }

    /// The pixel at column `x` of row `y`.
    pub open spec fn pixel_at(self, x: int, y: int) -> Pixel {
        self@[y * self.spec_width() + x]
    }

    /// Builds a grid from its dimensions and its pixels in row-major order.
    /// Fails when the number of pixels is not `width * height`.
    pub fn new(width: u32, height: u32, pixels: Vec<Pixel>) -> (grid: Option<PixelGrid>)
        ensures
            grid is Some <==> pixels@.len() == width * height,
            grid matches Some(g) ==> {
                &&& g.wf()
                &&& g.spec_width() == width
                &&& g.spec_height() == height
                &&& g@ == pixels@
            },
    {
        assert(width * height <= u64::MAX) by (nonlinear_arith)
            requires
                width <= u32::MAX,
                height <= u32::MAX,
        ;
        let expected: u64 = (width as u64) * (height as u64);
        if (pixels.len() as u64) != expected {
            return None;
        }
        Some(PixelGrid { width, height, pixels })
    }

    pub fn width(&self) -> (w: u32)
        ensures
            w == self.spec_width(),
    {
        self.width
    }

    pub fn height(&self) -> (h: u32)
        ensures
            h == self.spec_height(),
    {
        self.height
    }

    /// Width and height, in this order.
    pub fn dimensions(&self) -> (d: (u32, u32))
        ensures
            d.0 == self.spec_width(),
            d.1 == self.spec_height(),
    {
        (self.width, self.height)
    }

    /// The pixel at `(x, y)`, or `None` when the coordinate lies outside the grid.
    pub fn get_pixel(&self, x: u32, y: u32) -> (p: Option<Pixel>)
        ensures
            p is Some <==> x < self.spec_width() && y < self.spec_height(),
            p matches Some(px) ==> px == self.pixel_at(x as int, y as int),
    {
        if x < self.width && y < self.height {
            Some(self.at(x, y))
        } else {
            None
        }
    }

    /// The pixel at a coordinate that lies inside the grid.
    pub(crate) fn at(&self, x: u32, y: u32) -> (p: Pixel)
        requires
            x < self.spec_width(),
            y < self.spec_height(),
        ensures
            p == self.pixel_at(x as int, y as int),
    {
        let count: usize = self.pixels.len();
        proof {
            use_type_invariant(self);
            lemma_cell_in_range(x as int, y as int, self.width as int, self.height as int);
            assert(y * self.width + x < count);
        }
        let index: usize = (y as usize) * (self.width as usize) + (x as usize);
        self.pixels[index]
    }
}

/// The row-major index of a coordinate inside a `w * h` grid lies below `w * h`.
proof fn lemma_cell_in_range(x: int, y: int, w: int, h: int)
    requires
        0 <= x < w,
        0 <= y < h,
    ensures
        0 <= y * w <= y * w + x < w * h,
{
    assert(y * w + x < w * h) by (nonlinear_arith)
        requires
            0 <= x < w,
            0 <= y < h,
    {
        assert((y + 1) * w <= h * w);
    }
    assert(0 <= y * w) by (nonlinear_arith)
        requires
            0 <= y,
            0 <= w,
    ;
}

} // verus!
