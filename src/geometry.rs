use vstd::prelude::*;

verus! {

/// Height samples along one edge of a cell.
pub const VERTEX_CNT: usize = 65;

/// Texture tiles along one edge of a cell.
pub const GRID_SIZE: usize = 16;

/// Samples along one edge of a cell in the low-resolution overview map.
pub const WORLD_MAP_GRID: usize = 9;

/// A world cell, by its grid coordinates `(x, y)`; `y` grows northwards.
pub type CellKey = (i32, i32);

/// The bounding rectangle of the loaded cells and the pixel size of one
/// texture tile.
///
/// In every raster the cell column `x` maps to pixel column `x - min_x` and the
/// cell row `y` to pixel row `max_y - y`, so that north is at the top.
#[derive(Clone, Copy, Debug, PartialEq, Eq, Structural)]
pub struct Dimensions {
    pub min_x: i32,
    pub max_x: i32,
    pub min_y: i32,
    pub max_y: i32,
    pub texture_size: usize,
}

/// `a * b <= m` with `b >= 1` bounds `a` by `m`.
pub(crate) proof fn lemma_factor_le(a: int, b: int, m: int)
    requires
        a >= 0,
        b >= 1,
        a * b <= m,
    ensures
        a <= m,
{
    assert(a * 1 <= a * b) by (nonlinear_arith)
        requires
            a >= 0,
            b >= 1,
    ;
}

/// Position `q * d + r` of a row-major buffer splits back into row `q` and
/// column `r`.
pub(crate) proof fn lemma_row_major(j: int, d: int, q: int, r: int)
    requires
        d > 0,
        0 <= r < d,
        j == q * d + r,
    ensures
        j / d == q,
        j % d == r,
{
    vstd::arithmetic::div_mod::lemma_fundamental_div_mod_converse(j, d, q, r);
}

/// Row `q < h` and column `r < d` of a row-major buffer of `h` rows of width
/// `d` lie inside it.
pub(crate) proof fn lemma_row_major_bound(d: int, h: int, q: int, r: int)
    requires
        0 <= q < h,
        0 <= r < d,
    ensures
        0 <= q * d + r < h * d,
{
    assert(q * d + r < h * d) by (nonlinear_arith)
        requires
            0 <= q < h,
            0 <= r < d,
    ;
    assert(0 <= q * d) by (nonlinear_arith)
        requires
            0 <= q,
            0 <= r < d,
    ;
}

impl Dimensions {
    pub open spec fn spec_width(self) -> int {
        self.max_x - self.min_x + 1
    }

    pub open spec fn spec_height(self) -> int {
        self.max_y - self.min_y + 1
    }

    /// Pixels along one edge of a cell in the textured raster.
    pub open spec fn spec_cell_size(self) -> int {
        GRID_SIZE * self.texture_size
    }

    /// A raster of `n` samples per cell edge fits in memory.
    pub open spec fn fits(self, n: int) -> bool {
        (self.spec_width() * n) * (self.spec_height() * n) <= usize::MAX
    }

    pub open spec fn wf(self) -> bool {
        &&& self.min_x <= self.max_x
        &&& self.min_y <= self.max_y
        &&& self.texture_size >= 1
        &&& self.fits(VERTEX_CNT as int)
        &&& self.fits(self.spec_cell_size())
    }

    pub open spec fn contains(self, x: int, y: int) -> bool {
        self.min_x <= x <= self.max_x && self.min_y <= y <= self.max_y
    }

    /// Pixel column of the cell column `x`, in cells.
    pub open spec fn spec_canvas_x(self, x: int) -> int {
        x - self.min_x
    }

    /// Pixel row of the cell row `y`, in cells.
    pub open spec fn spec_canvas_y(self, y: int) -> int {
        self.max_y - y
    }

    /// Cell column of the pixel column `x`, in cells.
    pub open spec fn spec_cell_x(self, x: int) -> int {
        self.min_x + x
    }

    /// Cell row of the pixel row `y`, in cells.
    pub open spec fn spec_cell_y(self, y: int) -> int {
        self.max_y - y
    }

    /// A well-formed rectangle bounds each factor of its rasters' sizes.
    pub proof fn lemma_sizes(self, n: int)
        requires
            self.wf(),
            n >= 1,
            self.fits(n),
        ensures
            self.spec_width() * n <= usize::MAX,
            self.spec_height() * n <= usize::MAX,
            self.spec_width() <= self.spec_width() * n,
            self.spec_height() <= self.spec_height() * n,
            n <= self.spec_width() * n,
            self.spec_width() * self.spec_height() <= usize::MAX,
    {
        let w = self.spec_width();
        let h = self.spec_height();
        assert(w * n >= 1 && h * n >= 1 && w <= w * n && h <= h * n && n <= w * n)
            by (nonlinear_arith)
            requires
                w >= 1,
                h >= 1,
                n >= 1,
        ;
        lemma_factor_le(w * n, h * n, usize::MAX as int);
        assert(h * n * (w * n) == (w * n) * (h * n)) by (nonlinear_arith);
        lemma_factor_le(h * n, w * n, usize::MAX as int);
        assert(w * h <= (w * n) * (h * n)) by (nonlinear_arith)
            requires
                w >= 1,
                h >= 1,
                n >= 1,
        ;
    }

    /// A raster of fewer samples per cell fits whenever a larger one does.
    pub proof fn lemma_fits_smaller(self, n: int, m: int)
        requires
            self.wf(),
            0 <= n <= m,
            self.fits(m),
        ensures
            self.fits(n),
    {
        let w = self.spec_width();
        let h = self.spec_height();
        assert((w * n) * (h * n) <= (w * m) * (h * m)) by (nonlinear_arith)
            requires
                w >= 1,
                h >= 1,
                0 <= n <= m,
        ;
    }

    /// Cells along the x axis.
    pub fn width(&self) -> (r: usize)
        requires
            self.wf(),
        ensures
            r == self.spec_width(),
    {
        proof {
            self.lemma_sizes(VERTEX_CNT as int);
        }
        (self.max_x as i64 - self.min_x as i64 + 1) as usize
    }

    /// Cells along the y axis.
    pub fn height(&self) -> (r: usize)
        requires
            self.wf(),
        ensures
            r == self.spec_height(),
    {
        proof {
            self.lemma_sizes(VERTEX_CNT as int);
        }
        (self.max_y as i64 - self.min_y as i64 + 1) as usize
    }

    /// Pixels along one edge of a cell in the textured raster.
    pub fn cell_size(&self) -> (r: usize)
        requires
            self.wf(),
        ensures
            r == self.spec_cell_size(),
    {
        proof {
            self.lemma_sizes(self.spec_cell_size());
        }
        GRID_SIZE * self.texture_size
    }

    /// Width in pixels of a raster of `n` samples per cell edge.
    pub fn pixel_width(&self, n: usize) -> (r: usize)
        requires
            self.wf(),
            n >= 1,
            self.fits(n as int),
        ensures
            r == self.spec_width() * n,
    {
        proof {
            self.lemma_sizes(n as int);
        }
        self.width() * n
    }

    /// Height in pixels of a raster of `n` samples per cell edge.
    pub fn pixel_height(&self, n: usize) -> (r: usize)
        requires
            self.wf(),
            n >= 1,
            self.fits(n as int),
        ensures
            r == self.spec_height() * n,
    {
        proof {
            self.lemma_sizes(n as int);
        }
        self.height() * n
    }

    /// Distance between two vertically adjacent pixels of a raster of `n`
    /// samples per cell edge.
    pub fn stride(&self, n: usize) -> (r: usize)
        requires
            self.wf(),
            n >= 1,
            self.fits(n as int),
        ensures
            r == self.spec_width() * n,
    {
        self.pixel_width(n)
    }

    /// Pixel count of a raster of `n` samples per cell edge.
    pub fn pixel_size(&self, n: usize) -> (r: usize)
        requires
            self.wf(),
            n >= 1,
            self.fits(n as int),
        ensures
            r == (self.spec_width() * n) * (self.spec_height() * n),
    {
        self.pixel_width(n) * self.pixel_height(n)
    }

    /// `[width, height]` in pixels of a raster of `n` samples per cell edge.
    pub fn pixel_size_tuple(&self, n: usize) -> (r: [usize; 2])
        requires
            self.wf(),
            n >= 1,
            self.fits(n as int),
        ensures
            r@ == seq![(self.spec_width() * n) as usize, (self.spec_height() * n) as usize],
    {
        let r = [self.pixel_width(n), self.pixel_height(n)];
        assert(r@ =~= seq![(self.spec_width() * n) as usize, (self.spec_height() * n) as usize]);
        r
    }

    /// Column of the cell column `x` in a raster of one sample per cell.
    pub fn transform_to_canvas_x(&self, x: i32) -> (r: usize)
        requires
            self.wf(),
            self.min_x <= x <= self.max_x,
        ensures
            r == self.spec_canvas_x(x as int),
    {
        (x as i64 - self.min_x as i64) as usize
    }

    /// Row of the cell row `y` in a raster of one sample per cell.
    pub fn transform_to_canvas_y(&self, y: i32) -> (r: usize)
        requires
            self.wf(),
            self.min_y <= y <= self.max_y,
        ensures
            r == self.spec_canvas_y(y as int),
    {
        (self.max_y as i64 - y as i64) as usize
    }

    /// Cell column of column `x` of a raster of one sample per cell.
    pub fn transform_to_cell_x(&self, x: usize) -> (r: i32)
        requires
            self.wf(),
            x < self.spec_width(),
        ensures
            r == self.spec_cell_x(x as int),
    {
        (self.min_x as i64 + x as i64) as i32
    }

    /// Cell row of row `y` of a raster of one sample per cell.
    pub fn transform_to_cell_y(&self, y: usize) -> (r: i32)
        requires
            self.wf(),
            y < self.spec_height(),
        ensures
            r == self.spec_cell_y(y as int),
    {
        (self.max_y as i64 - y as i64) as i32
    }

    /// Mapping a cell to the canvas and back gives the cell again, for every
    /// cell inside the rectangle; the canvas position lies inside the raster.
    pub proof fn lemma_canvas_round_trip(self, x: int, y: int)
        requires
            self.wf(),
            self.contains(x, y),
        ensures
            0 <= self.spec_canvas_x(x) < self.spec_width(),
            0 <= self.spec_canvas_y(y) < self.spec_height(),
            self.spec_cell_x(self.spec_canvas_x(x)) == x,
            self.spec_cell_y(self.spec_canvas_y(y)) == y,
    {
    }

    /// Mapping a canvas position to its cell and back gives the position
    /// again.
    pub proof fn lemma_cell_round_trip(self, cx: int, cy: int)
        requires
            self.wf(),
            0 <= cx < self.spec_width(),
            0 <= cy < self.spec_height(),
        ensures
            self.contains(self.spec_cell_x(cx), self.spec_cell_y(cy)),
            self.spec_canvas_x(self.spec_cell_x(cx)) == cx,
            self.spec_canvas_y(self.spec_cell_y(cy)) == cy,
    {
    }
}

} // verus!
