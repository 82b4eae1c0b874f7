//! The order in which an evaluation visits the pixels of a grid.

use rand::StdRng;
use vstd::prelude::*;

use crate::grid::{Pixel, PixelGrid};
use crate::ratio::SampleRatio;
use crate::sampler::{every_coordinate, is_coordinate_set, lemma_coordinate_set_fits, CoordinateSet};

verus! {

/// The cartesian product of two coordinate lists in visiting order: for each
/// `y` in turn, every `x` once. The pair at rank `k` is
/// `(xs[k % |xs|], ys[k / |xs|])`.
pub open spec fn visit_order(xs: Seq<u32>, ys: Seq<u32>) -> Seq<(u32, u32)> {
    Seq::new(xs.len() * ys.len(), |k: int| (xs[k % (xs.len() as int)], ys[k / (xs.len() as int)]))
}

/// The rank at which a product of `columns` columns holds the pair of the
/// column of rank `i` and the row of rank `j`.
pub open spec fn rank_of(i: int, j: int, columns: int) -> int {
    j * columns + i
}

/// The pixels of `grid` found along `path`.
pub open spec fn pixels_along(grid: PixelGrid, path: Seq<(u32, u32)>) -> Seq<Pixel> {
    Seq::new(path.len(), |k: int| grid.pixel_at(path[k].0 as int, path[k].1 as int))
}

/// A pass over the pixels at the cartesian product of a set of columns and a
/// set of rows. The pass cannot be restarted: make a new one instead.
#[derive(Debug)]
pub struct SamplePixels<'a> {
    image: &'a PixelGrid,
    i: usize,
    j: usize,
    x_points: CoordinateSet,
    y_points: CoordinateSet,
}

impl<'a> SamplePixels<'a> {
    /// The coordinate sets belong to the axes of the grid, and the cursor
    /// points at a pair of the product or stands at its end.
    #[verifier::type_invariant]
    pub closed spec fn wf(self) -> bool {
        &&& self.image.wf()
        &&& self.x_points.wf()
        &&& self.y_points.wf()
        &&& self.x_points.spec_dimension() == self.image.spec_width()
        &&& self.y_points.spec_dimension() == self.image.spec_height()
        &&& self.j <= self.y_points@.len()
        &&& if self.j < self.y_points@.len() && self.x_points@.len() > 0 {
            self.i < self.x_points@.len()
        } else {
            self.i == 0
        }
    }

    /// The grid that the pass reads.
    pub closed spec fn spec_image(self) -> PixelGrid {
        *self.image
    }

    /// The columns of the pass, in visiting order.
    pub closed spec fn xs(self) -> Seq<u32> {
        self.x_points@
    }

    /// The rows of the pass, in visiting order.
    pub closed spec fn ys(self) -> Seq<u32> {
        self.y_points@
    }

    /// Every coordinate pair of the pass, in visiting order.
    pub open spec fn path(self) -> Seq<(u32, u32)> {
        visit_order(self.xs(), self.ys())
    }

    /// How many pairs the pass has handed out.
    pub closed spec fn position(self) -> nat {
        if self.x_points@.len() == 0 {
            0
        } else {
            (self.j * self.x_points@.len() + self.i) as nat
        }
    }

    /// The pixels that the pass has not handed out yet, in visiting order.
    pub open spec fn remaining(self) -> Seq<Pixel> {
        pixels_along(self.spec_image(), self.path()).skip(self.position() as int)
    }

    /// What the invariant of a pass says of its views.
    pub proof fn lemma_wf(self)
        requires
            self.wf(),
        ensures
            self.spec_image().wf(),
            is_coordinate_set(self.xs(), self.spec_image().spec_width()),
            is_coordinate_set(self.ys(), self.spec_image().spec_height()),
            self.xs().len() <= self.spec_image().spec_width(),
            self.ys().len() <= self.spec_image().spec_height(),
            self.path().len() == self.xs().len() * self.ys().len(),
            self.path().len() <= u32::MAX * u32::MAX,
            self.position() <= self.path().len(),
    {
        let n = self.xs().len();
        let m = self.ys().len();
        lemma_coordinate_set_fits(self.xs(), self.spec_image().spec_width());
        lemma_coordinate_set_fits(self.ys(), self.spec_image().spec_height());
        assert(n * m <= u32::MAX * u32::MAX) by (nonlinear_arith)
            requires
                n <= u32::MAX,
                m <= u32::MAX,
        ;
        if n > 0 {
            lemma_rank_in_product(self.i as int, self.j as int, n as int, m as int);
        }
    }

    /// A pass over the given columns and rows of `image`. `None` when a set
    /// was drawn from an axis of another length than the grid's.
    pub fn over(image: &'a PixelGrid, x_points: CoordinateSet, y_points: CoordinateSet) -> (pass:
        Option<SamplePixels<'a>>)
        ensures
            pass is Some <==> x_points.spec_dimension() == image.spec_width()
                && y_points.spec_dimension() == image.spec_height(),
            pass matches Some(p) ==> {
                &&& p.wf()
                &&& p.spec_image() == *image
                &&& p.xs() == x_points@
                &&& p.ys() == y_points@
                &&& p.position() == 0
            },
    {
        proof {
            use_type_invariant(image);
            use_type_invariant(&x_points);
            use_type_invariant(&y_points);
        }
        if x_points.dimension() != image.width() || y_points.dimension() != image.height() {
            return None;
        }
        Some(SamplePixels { image, i: 0, j: 0, x_points, y_points })
    }

    /// A pass over every pixel of `image`, row by row.
    pub fn exhaustive(image: &'a PixelGrid) -> (pass: SamplePixels<'a>)
        ensures
            pass.wf(),
            pass.spec_image() == *image,
            pass.xs() == every_coordinate(image.spec_width()),
            pass.ys() == every_coordinate(image.spec_height()),
            pass.position() == 0,
    {
        proof {
            use_type_invariant(image);
        }
        let x_points = CoordinateSet::full(image.width());
        let y_points = CoordinateSet::full(image.height());
        SamplePixels { image, i: 0, j: 0, x_points, y_points }
    }

    /// A pass over a random sample of the columns and of the rows of
    /// `image`: `floor(width * smpl / 100)` columns and
    /// `floor(height * smpl / 100)` rows, each drawn without replacement and
    /// independently of the other.
    pub fn from_image(image: &'a PixelGrid, smpl: SampleRatio, rng: &mut StdRng) -> (pass:
        SamplePixels<'a>)
        ensures
            pass.wf(),
            pass.spec_image() == *image,
            is_coordinate_set(pass.xs(), image.spec_width()),
            is_coordinate_set(pass.ys(), image.spec_height()),
            pass.xs().len() == smpl.spec_sample_count(image.spec_width()),
            pass.ys().len() == smpl.spec_sample_count(image.spec_height()),
            pass.path().len() == smpl.spec_sample_count(image.spec_width())
                * smpl.spec_sample_count(image.spec_height()),
            pass.position() == 0,
    {
        proof {
            use_type_invariant(image);
        }
        let (width, height) = image.dimensions();
        let x_points = CoordinateSet::sample(rng, width, smpl);
        let y_points = CoordinateSet::sample(rng, height, smpl);
        SamplePixels { image, i: 0, j: 0, x_points, y_points }
    }

    /// Hands out the next pixel of the pass with its coordinates, columns
    /// varying fastest, or `None` once every row has been paired with every
    /// column.
    pub fn next(&mut self) -> (item: Option<(u32, u32, Pixel)>)
        ensures
            final(self).wf(),
            final(self).spec_image() == old(self).spec_image(),
            final(self).xs() == old(self).xs(),
            final(self).ys() == old(self).ys(),
            old(self).position() <= old(self).path().len(),
            match item {
                Some((x, y, pixel)) => {
                    &&& old(self).position() < old(self).path().len()
                    &&& (x, y) == old(self).path()[old(self).position() as int]
                    &&& x < old(self).spec_image().spec_width()
                    &&& y < old(self).spec_image().spec_height()
                    &&& pixel == old(self).spec_image().pixel_at(x as int, y as int)
                    &&& final(self).position() == old(self).position() + 1
                },
                None => {
                    &&& old(self).position() == old(self).path().len()
                    &&& final(self).position() == old(self).position()
                },
            },
    {
        proof {
            use_type_invariant(&*self);
            self.lemma_wf();
        }
        let columns: usize = self.x_points.len();
        let rows: usize = self.y_points.len();
        if columns == 0 || self.j >= rows {
            proof {
                if columns > 0 {
                    assert(self.j * columns + 0 == rows * columns);
                    assert(rows * columns == columns * rows) by (nonlinear_arith);
                }
            }
            return None;
        }
        let x: u32 = self.x_points.points()[self.i];
        let y: u32 = self.y_points.points()[self.j];
        let pixel = self.image.at(x, y);
        proof {
            lemma_rank_in_product(self.i as int, self.j as int, columns as int, rows as int);
            assert((self.j + 1) * columns == self.j * columns + columns) by (nonlinear_arith);
        }
        if self.i + 1 < columns {
            self.i = self.i + 1;
        } else {
            self.i = 0;
            self.j = self.j + 1;
        }
        Some((x, y, pixel))
    }
}

/// The pair in column-rank `i` of row-rank `j` has rank `j * n + i` in a
/// product of `n` columns and `m` rows; a cursor at the end of the rows has
/// the rank `n * m`.
proof fn lemma_rank_in_product(i: int, j: int, n: int, m: int)
    requires
        0 < n,
        0 <= j <= m,
        0 <= i < n,
        j == m ==> i == 0,
    ensures
        0 <= j * n + i <= n * m,
        j < m ==> j * n + i < n * m,
        (j * n + i) % n == i,
        (j * n + i) / n == j,
{
    assert(0 <= j * n) by (nonlinear_arith)
        requires
            0 <= j,
            0 < n,
    ;
    if j < m {
        assert(j * n + i < n * m) by (nonlinear_arith)
            requires
                0 <= i < n,
                0 <= j < m,
        {
            assert((j + 1) * n <= m * n);
        }
    } else {
        assert(j * n == n * m) by (nonlinear_arith)
            requires
                j == m,
        ;
    }
    vstd::arithmetic::div_mod::lemma_fundamental_div_mod_converse(j * n + i, n, j, i);
}

/// A rank below `w * h` splits into a column below `w` and a row below `h`.
pub(crate) proof fn lemma_rank_splits(k: int, w: int, h: int)
    requires
        0 <= k < w * h,
        0 < w,
    ensures
        0 <= k % w < w,
        0 <= k / w < h,
        (k / w) * w + k % w == k,
{
    vstd::arithmetic::div_mod::lemma_fundamental_div_mod(k, w);
    vstd::arithmetic::div_mod::lemma_mod_bound(k, w);
    vstd::arithmetic::div_mod::lemma_div_pos_is_pos(k, w);
    let q = k / w;
    assert(w * q == q * w) by (nonlinear_arith);
    assert(q < h) by (nonlinear_arith)
        requires
            q * w + k % w == k,
            0 <= k % w,
            k < w * h,
            0 < w,
    ;
}

/// A product of distinct columns and distinct rows holds no pair twice, and
/// the pair of the column of rank `i` and the row of rank `j` stands at rank
/// `j * |xs| + i`.
pub proof fn lemma_visit_order_distinct(xs: Seq<u32>, ys: Seq<u32>)
    requires
        xs.no_duplicates(),
        ys.no_duplicates(),
    ensures
        visit_order(xs, ys).len() == xs.len() * ys.len(),
        visit_order(xs, ys).no_duplicates(),
        forall|i: int, j: int|
            0 <= i < xs.len() && 0 <= j < ys.len() ==> {
                let k = #[trigger] rank_of(i, j, xs.len() as int);
                0 <= k < visit_order(xs, ys).len() && visit_order(xs, ys)[k] == (xs[i], ys[j])
            },
{
    let n = xs.len() as int;
    let m = ys.len() as int;
    let path = visit_order(xs, ys);
    assert forall|a: int, b: int| 0 <= a < path.len() && 0 <= b < path.len() && a != b implies path[a]
        != path[b] by {
        lemma_rank_splits(a, n, m);
        lemma_rank_splits(b, n, m);
        if a % n == b % n {
            assert(a / n != b / n);
        }
    }
    assert forall|i: int, j: int| 0 <= i < xs.len() && 0 <= j < ys.len() implies {
        let k = #[trigger] rank_of(i, j, xs.len() as int);
        0 <= k < visit_order(xs, ys).len() && visit_order(xs, ys)[k] == (xs[i], ys[j])
    } by {
        lemma_rank_in_product(i, j, n, m);
    }
}

/// The pass over every pixel of a grid visits `width * height` coordinate
/// pairs and each pair of the grid exactly once: the pair `(x, y)` at rank
/// `y * width + x` and, as no pair occurs twice, nowhere else.
pub proof fn lemma_exhaustive_visits_each_once(width: nat, height: nat)
    requires
        width <= u32::MAX,
        height <= u32::MAX,
    ensures
        visit_order(every_coordinate(width), every_coordinate(height)).len() == width * height,
        visit_order(every_coordinate(width), every_coordinate(height)).no_duplicates(),
        forall|x: int, y: int|
            0 <= x < width && 0 <= y < height ==> {
                let k = #[trigger] rank_of(x, y, width as int);
                0 <= k < width * height && visit_order(
                    every_coordinate(width),
                    every_coordinate(height),
                )[k] == (x as u32, y as u32)
            },
        forall|k: int|
            0 <= k < width * height ==> {
                let pair = #[trigger] visit_order(
                    every_coordinate(width),
                    every_coordinate(height),
                )[k];
                pair.0 < width && pair.1 < height
            },
{
    let xs = every_coordinate(width);
    let ys = every_coordinate(height);
    lemma_visit_order_distinct(xs, ys);
    assert forall|x: int, y: int| 0 <= x < width && 0 <= y < height implies {
        let k = #[trigger] rank_of(x, y, width as int);
        0 <= k < width * height && visit_order(xs, ys)[k] == (x as u32, y as u32)
    } by {
        lemma_rank_in_product(x, y, width as int, height as int);
    }
    assert forall|k: int| 0 <= k < width * height implies {
        let pair = #[trigger] visit_order(xs, ys)[k];
        pair.0 < width && pair.1 < height
    } by {
        lemma_rank_splits(k, width as int, height as int);
    }
}

/// Read along the pass over every pixel, a grid yields its pixels row by
/// row.
pub proof fn lemma_exhaustive_stream(grid: PixelGrid)
    requires
        grid.wf(),
    ensures
        pixels_along(
            grid,
            visit_order(every_coordinate(grid.spec_width()), every_coordinate(grid.spec_height())),
        ) == grid@,
{
    let w = grid.spec_width() as int;
    let h = grid.spec_height() as int;
    let path = visit_order(every_coordinate(w as nat), every_coordinate(h as nat));
    let stream = pixels_along(grid, path);
    assert forall|k: int| 0 <= k < stream.len() implies stream[k] == grid@[k] by {
        lemma_rank_splits(k, w, h);
    }
    assert(stream =~= grid@);
}

} // verus!
