use vstd::prelude::*;
use vstd::arithmetic::div_mod::{lemma_fundamental_div_mod, lemma_fundamental_div_mod_converse};

use crate::cell::Cell;
use crate::rules::{Rule, rule_next, next_cell, lemma_dead_cells_count_nothing};
use crate::neighbourhood::{
    block_row, block_rows, neighbour_coords, lemma_block_row_outside, lemma_neighbours_in_reach,
};
use crate::point::{Point, in_grid, linear_index, lemma_linear_index_in_range};

verus! {

/// Why a grid could not be built.
#[derive(Debug, Clone, Copy, PartialEq, Eq, Structural)]
pub enum ConstructionError {
    /// The width or the height was zero or negative.
    NonPositiveDimension,
}

/// A position outside the grid was addressed.
#[derive(Debug, Clone, Copy, PartialEq, Eq, Structural)]
pub struct OutOfBounds {
    pub point: Point,
}

/// A fixed-size grid of cells, stored row by row.
pub struct Sandbox {
    cells: Vec<Cell>,
    width: isize,
    height: isize,
}

impl View for Sandbox {
    type V = Seq<Cell>;

    /// The cells, row by row.
    closed spec fn view(&self) -> Seq<Cell> {
        self.cells@
    }
}

impl Sandbox {
    pub closed spec fn spec_width(&self) -> isize {
        self.width
    }

    pub closed spec fn spec_height(&self) -> isize {
        self.height
    }

    /// Both dimensions are positive, their product fits in an `isize`, and
    /// there is one cell per position.
    pub open spec fn wf(&self) -> bool {
        &&& self.spec_width() > 0
        &&& self.spec_height() > 0
        &&& self.spec_width() * self.spec_height() <= isize::MAX
        &&& self@.len() == self.spec_width() * self.spec_height()
    }

    pub open spec fn contains(&self, x: int, y: int) -> bool {
        in_grid(x, y, self.spec_width() as int, self.spec_height() as int)
    }

    pub open spec fn index_of(&self, x: int, y: int) -> int {
        linear_index(x, y, self.spec_width() as int)
    }

    pub open spec fn cell_at(&self, x: int, y: int) -> Cell {
        self@[self.index_of(x, y)]
    }

    /// The cells at the given positions, in the same order.
    pub open spec fn cells_of(&self, coords: Seq<(int, int)>) -> Seq<Cell> {
        coords.map_values(|q: (int, int)| self.cell_at(q.0, q.1))
    }

    /// The cells of the Moore neighbours of `(x, y)`.
    pub open spec fn neighbourhood(&self, x: int, y: int) -> Seq<Cell> {
        self.cells_of(neighbour_coords(x, y, self.spec_width() as int, self.spec_height() as int))
    }

    /// A grid of `width` by `height` dead cells; fails when either
    /// dimension is not positive.
    pub fn new(width: isize, height: isize) -> (r: Result<Sandbox, ConstructionError>)
        requires
            width > 0 && height > 0 ==> width * height <= isize::MAX,
        ensures
            r is Err <==> (width <= 0 || height <= 0),
            r is Err ==> r->Err_0 == ConstructionError::NonPositiveDimension,
            r matches Ok(g) ==> {
                &&& g.wf()
                &&& g.spec_width() == width
                &&& g.spec_height() == height
                &&& forall|i: int| 0 <= i < g@.len() ==> g@[i] == Cell::Dead
            },
    {
        if width <= 0 || height <= 0 {
            return Err(ConstructionError::NonPositiveDimension);
        }
        let area = width * height;
        let mut cells: Vec<Cell> = Vec::new();
        let mut i: isize = 0;
        while i < area
            invariant
                0 <= i <= area,
                cells@.len() == i,
                forall|j: int| 0 <= j < i ==> cells@[j] == Cell::Dead,
            decreases area - i,
        {
            cells.push(Cell::Dead);
            i += 1;
        }
        Ok(Sandbox { cells, width, height })
    }

    #[verifier::when_used_as_spec(spec_width)]
    pub fn width(&self) -> (r: isize)
        ensures
            r == self.spec_width(),
    {
        self.width
    }

    #[verifier::when_used_as_spec(spec_height)]
    pub fn height(&self) -> (r: isize)
        ensures
            r == self.spec_height(),
    {
        self.height
    }

    /// The number of cells.
    pub fn area(&self) -> (r: isize)
        requires
            self.wf(),
        ensures
            r == self.spec_width() * self.spec_height(),
            r == self@.len(),
    {
        self.width * self.height
    }

    /// The cell at `point`, or `OutOfBounds` when the grid does not hold it.
    pub fn get_cell(&self, point: Point) -> (r: Result<&Cell, OutOfBounds>)
        requires
            self.wf(),
        ensures
            r is Ok <==> self.contains(point.x as int, point.y as int),
            r matches Ok(c) ==> *c == self.cell_at(point.x as int, point.y as int),
            r matches Err(e) ==> e.point == point,
    {
        if !point.is_in_bounds(self.width, self.height) {
            return Err(OutOfBounds { point });
        }
        proof {
            lemma_linear_index_in_range(point.x as int, point.y as int, self.width as int, self.height as int);
        }
        Ok(&self.cells[point.to_index(self.width) as usize])
    }

    /// The cell at `point`, to be changed in place; `point` must lie in the grid.
    pub fn get_cell_mut(&mut self, point: Point) -> (r: &mut Cell)
        requires
            old(self).wf(),
            old(self).contains(point.x as int, point.y as int),
        ensures
            *r == old(self).cell_at(point.x as int, point.y as int),
            final(self)@ == old(self)@.update(old(self).index_of(point.x as int, point.y as int), *final(r)),
            final(self).spec_width() == old(self).spec_width(),
            final(self).spec_height() == old(self).spec_height(),
    {
        proof {
            lemma_linear_index_in_range(point.x as int, point.y as int, self.width as int, self.height as int);
        }
        let i = point.to_index(self.width) as usize;
        &mut self.cells[i]
    }

    /// Overwrites the cell at `point`, or fails with `OutOfBounds`, leaving the
    /// grid as it was, when the grid does not hold it.
    pub fn write_cell(&mut self, point: Point, cell: Cell) -> (r: Result<(), OutOfBounds>)
        requires
            old(self).wf(),
        ensures
            r is Ok <==> old(self).contains(point.x as int, point.y as int),
            r is Ok ==> final(self)@ == old(self)@.update(old(self).index_of(point.x as int, point.y as int), cell),
            r matches Err(e) ==> e.point == point && final(self)@ == old(self)@,
            final(self).spec_width() == old(self).spec_width(),
            final(self).spec_height() == old(self).spec_height(),
    {
        if !point.is_in_bounds(self.width, self.height) {
            return Err(OutOfBounds { point });
        }
        *self.get_cell_mut(point) = cell;
        Ok(())
    }
}


impl Sandbox {
    /// The cells of the Moore neighbours of `point`, in row-major order:
    /// three at a corner, five along an edge, eight inside. Fails with
    /// `OutOfBounds` when the grid does not hold `point`.
    ///
    /// The window is clipped once, up front, to the columns and rows that
    /// exist, so no neighbour is looked up and then discarded.
    pub fn read_moore_neighbourhood(&self, point: Point) -> (r: Result<Vec<Cell>, OutOfBounds>)
        requires
            self.wf(),
        ensures
            r is Ok <==> self.contains(point.x as int, point.y as int),
            r matches Ok(v) ==> v@ == self.neighbourhood(point.x as int, point.y as int),
            r matches Err(e) ==> e.point == point,
    {
        if !point.is_in_bounds(self.width, self.height) {
            return Err(OutOfBounds { point });
        }
        let w = self.width;
        let h = self.height;
        let x = point.x;
        let y = point.y;
        let ghost (wi, hi, xi, yi) = (w as int, h as int, x as int, y as int);

        let x_start: isize = if x == 0 { 0 } else { -1 };
        let x_end: isize = if x == w - 1 { 0 } else { 1 };
        let y_start: isize = if y == 0 { 0 } else { -1 };
        let y_end: isize = if y == h - 1 { 0 } else { 1 };

        let mut out: Vec<Cell> = Vec::new();
        proof {
            if y_start == 0 {
                lemma_block_row_outside(xi, yi, wi, hi, -1, 3);
                assert(block_rows(xi, yi, wi, hi, 0) =~= Seq::<(int, int)>::empty());
                assert(block_rows(xi, yi, wi, hi, 1) =~= Seq::<(int, int)>::empty());
            }
            assert(out@ =~= self.cells_of(block_rows(xi, yi, wi, hi, y_start + 1)));
        }
        let mut dy: isize = y_start;
        while dy <= y_end
            invariant
                self.wf(),
                w == self.spec_width(),
                h == self.spec_height(),
                wi == w,
                hi == h,
                xi == x,
                yi == y,
                in_grid(xi, yi, wi, hi),
                x_start == (if x == 0 { 0isize } else { -1isize }),
                x_end == (if x == w - 1 { 0isize } else { 1isize }),
                y_start == (if y == 0 { 0isize } else { -1isize }),
                y_end == (if y == h - 1 { 0isize } else { 1isize }),
                y_start <= dy <= y_end + 1,
                out@ == self.cells_of(block_rows(xi, yi, wi, hi, dy + 1)),
            decreases y_end + 1 - dy,
        {
            let ghost done = block_rows(xi, yi, wi, hi, dy + 1);
            proof {
                assert(block_row(xi, yi, wi, hi, dy as int, 0) =~= Seq::<(int, int)>::empty());
                assert(block_row(xi, yi, wi, hi, dy as int, x_start + 1) =~= Seq::<(int, int)>::empty());
                assert(out@ =~= self.cells_of(done + block_row(xi, yi, wi, hi, dy as int, x_start + 1)));
            }
            let mut dx: isize = x_start;
            while dx <= x_end
                invariant
                    self.wf(),
                    w == self.spec_width(),
                    h == self.spec_height(),
                    wi == w,
                    hi == h,
                    xi == x,
                    yi == y,
                    in_grid(xi, yi, wi, hi),
                    x_start == (if x == 0 { 0isize } else { -1isize }),
                    x_end == (if x == w - 1 { 0isize } else { 1isize }),
                    y_start <= dy <= y_end,
                    y_start == (if y == 0 { 0isize } else { -1isize }),
                    y_end == (if y == h - 1 { 0isize } else { 1isize }),
                    x_start <= dx <= x_end + 1,
                    out@ == self.cells_of(done + block_row(xi, yi, wi, hi, dy as int, dx + 1)),
                decreases x_end + 1 - dx,
            {
                let ghost before = block_row(xi, yi, wi, hi, dy as int, dx + 1);
                if !(dx == 0 && dy == 0) {
                    let q = Point::new(x + dx, y + dy);
                    proof {
                        lemma_linear_index_in_range(q.x as int, q.y as int, wi, hi);
                    }
                    let i = q.to_index(w) as usize;
                    out.push(self.cells[i]);
                    proof {
                        assert(block_row(xi, yi, wi, hi, dy as int, dx + 2) == before.push((xi + dx, yi + dy)));
                        assert(out@ =~= self.cells_of(done + before.push((xi + dx, yi + dy))));
                    }
                }
                dx += 1;
            }
            proof {
                assert(block_row(xi, yi, wi, hi, dy as int, 3) == block_row(xi, yi, wi, hi, dy as int, x_end + 2));
            }
            dy += 1;
        }
        proof {
            if y_end == 0 {
                lemma_block_row_outside(xi, yi, wi, hi, 1, 3);
                assert(block_rows(xi, yi, wi, hi, 3) =~= block_rows(xi, yi, wi, hi, 2));
            }
        }
        Ok(out)
    }
}

impl Sandbox {
    /// The state that the cell in slot `k` takes after one generation under `rule`.
    pub open spec fn next_at(&self, rule: Rule, k: int) -> Cell {
        let w = self.spec_width() as int;
        rule_next(rule, self@[k], self.neighbourhood(k % w, k / w))
    }

    /// Advances the grid by exactly one generation under `rule`.
    ///
    /// Every next state is computed from the grid as it was before the call
    /// and staged; the staged generation replaces the cells only once all of
    /// it is known, so no cell sees a neighbour's new state.
    pub fn step(&mut self, rule: Rule)
        requires
            old(self).wf(),
        ensures
            final(self).wf(),
            final(self).spec_width() == old(self).spec_width(),
            final(self).spec_height() == old(self).spec_height(),
            forall|x: int, y: int|
                old(self).contains(x, y) ==> #[trigger] final(self).cell_at(x, y) == rule_next(
                    rule,
                    old(self).cell_at(x, y),
                    old(self).neighbourhood(x, y),
                ),
    {
        let w = self.width;
        let area = self.area();
        let mut next: Vec<Cell> = Vec::new();
        let mut k: isize = 0;
        while k < area
            invariant
                self.wf(),
                w == self.spec_width(),
                area == self@.len(),
                0 <= k <= area,
                next@.len() == k,
                forall|j: int| 0 <= j < k ==> #[trigger] next@[j] == self.next_at(rule, j),
            decreases area - k,
        {
            let point = Point::new(k % w, k / w);
            proof {
                lemma_fundamental_div_mod(k as int, w as int);
                assert(0 <= k / w < self.spec_height()) by (nonlinear_arith)
                    requires
                        0 <= k < w * self.spec_height(),
                        w > 0,
                        k == w * (k / w) + (k % w),
                        0 <= k % w < w,
                ;
            }
            // The point lies in the grid, so the read succeeds; were it to fail,
            // the tick would end here with the grid untouched.
            let neighbourhood = match self.read_moore_neighbourhood(point) {
                Ok(v) => v,
                Err(_) => return,
            };
            next.push(next_cell(rule, self.cells[k as usize], neighbourhood.as_slice()));
            k += 1;
        }
        let ghost before = *self;
        self.cells = next;
        proof {
            assert forall|x: int, y: int| before.contains(x, y) implies #[trigger] self.cell_at(x, y) == rule_next(
                rule,
                before.cell_at(x, y),
                before.neighbourhood(x, y),
            ) by {
                let k = before.index_of(x, y);
                lemma_linear_index_in_range(x, y, w as int, before.spec_height() as int);
                lemma_fundamental_div_mod_converse(k, w as int, y, x);
                assert(next@[k] == before.next_at(rule, k));
            }
        }
    }
}

/// A grid of dead cells is a fixed point of both rules: every cell's next
/// state is dead, so `step` leaves such a grid all dead.
pub proof fn lemma_all_dead_is_fixed(g: Sandbox, rule: Rule)
    requires
        g.wf(),
        forall|i: int| 0 <= i < g@.len() ==> g@[i] == Cell::Dead,
    ensures
        forall|x: int, y: int|
            g.contains(x, y) ==> rule_next(rule, g.cell_at(x, y), #[trigger] g.neighbourhood(x, y))
                == Cell::Dead,
{
    let w = g.spec_width() as int;
    let h = g.spec_height() as int;
    assert forall|x: int, y: int| g.contains(x, y) implies rule_next(
        rule,
        g.cell_at(x, y),
        #[trigger] g.neighbourhood(x, y),
    ) == Cell::Dead by {
        let coords = neighbour_coords(x, y, w, h);
        let cells = g.neighbourhood(x, y);
        lemma_linear_index_in_range(x, y, w, h);
        lemma_neighbours_in_reach(x, y, w, h);
        assert forall|i: int| 0 <= i < cells.len() implies cells[i] == Cell::Dead by {
            let q = coords[i];
            lemma_linear_index_in_range(q.0, q.1, w, h);
        }
        lemma_dead_cells_count_nothing(cells);
    }
}

} // verus!
