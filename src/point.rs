use vstd::prelude::*;

verus! {

/// Whether `(x, y)` lies in the grid `[0, w) x [0, h)`.
pub open spec fn in_grid(x: int, y: int, w: int, h: int) -> bool {
    0 <= x < w && 0 <= y < h
}

/// The row-major slot of `(x, y)` in a grid `w` wide.
pub open spec fn linear_index(x: int, y: int, w: int) -> int {
    w * y + x
}

/// A position in the grid lies inside it, and its slot inside the cell sequence.
pub proof fn lemma_linear_index_in_range(x: int, y: int, w: int, h: int)
    requires
        in_grid(x, y, w, h),
    ensures
        0 <= w * y <= w * h - w,
        0 <= linear_index(x, y, w) < w * h,
{
    assert(0 <= w * y <= w * h - w) by (nonlinear_arith)
        requires
            0 <= y < h,
            0 < w,
    ;
}

/// A position on the grid, as a column `x` and a row `y`.
#[derive(Debug, Clone, Copy, PartialEq, Eq, Structural)]
pub struct Point {
    pub x: isize,
    pub y: isize,
}

impl Point {
    pub fn new(x: isize, y: isize) -> (r: Point)
        ensures
            r.x == x,
            r.y == y,
    {
        Point { x, y }
    }

    /// The row-major slot of this position in a grid `width` wide. It is
    /// meaningful only for a position inside that grid.
    pub fn to_index(&self, width: isize) -> (r: isize)
        requires
            isize::MIN <= width * self.y <= isize::MAX,
            isize::MIN <= width * self.y + self.x <= isize::MAX,
        ensures
            r == linear_index(self.x as int, self.y as int, width as int),
    {
        width * self.y + self.x
    }

    pub fn is_in_bounds(&self, width: isize, height: isize) -> (r: bool)
        ensures
            r == in_grid(self.x as int, self.y as int, width as int, height as int),
    {
        0 <= self.x && self.x < width && 0 <= self.y && self.y < height
    }
}

} // verus!
