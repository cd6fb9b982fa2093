use vstd::prelude::*;

use crate::point::in_grid;

verus! {

/// The positions in row `y + dy` of the 3x3 block around `(x, y)`, among its
/// first `n` columns (`x - 1` up to `x + n - 2`), that lie in the `w` by `h`
/// grid and are not `(x, y)` itself, left to right.
pub open spec fn block_row(x: int, y: int, w: int, h: int, dy: int, n: int) -> Seq<(int, int)>
    decreases n,
{
    if n <= 0 {
        Seq::empty()
    } else {
        let prev = block_row(x, y, w, h, dy, n - 1);
        let dx = n - 2;
        if !(dx == 0 && dy == 0) && in_grid(x + dx, y + dy, w, h) {
            prev.push((x + dx, y + dy))
        } else {
            prev
        }
    }
}

/// The kept positions of the first `m` rows of the 3x3 block around `(x, y)`
/// (rows `y - 1` up to `y + m - 2`), top to bottom.
pub open spec fn block_rows(x: int, y: int, w: int, h: int, m: int) -> Seq<(int, int)>
    decreases m,
{
    if m <= 0 {
        Seq::empty()
    } else {
        block_rows(x, y, w, h, m - 1) + block_row(x, y, w, h, m - 2, 3)
    }
}

/// The Moore neighbours of `(x, y)` in a `w` by `h` grid: the positions at
/// offsets `(dx, dy)` with `dx, dy` in `{-1, 0, 1}`, other than `(0, 0)`,
/// that lie inside the grid, in row-major order. Nothing wraps around an edge.
pub open spec fn neighbour_coords(x: int, y: int, w: int, h: int) -> Seq<(int, int)> {
    block_rows(x, y, w, h, 3)
}

/// A row of the block that lies outside the grid contributes nothing.
pub(crate) proof fn lemma_block_row_outside(x: int, y: int, w: int, h: int, dy: int, n: int)
    requires
        !(0 <= y + dy < h),
    ensures
        block_row(x, y, w, h, dy, n) == Seq::<(int, int)>::empty(),
    decreases n,
{
    if n > 0 {
        lemma_block_row_outside(x, y, w, h, dy, n - 1);
    }
}

/// `q` is a Moore neighbour of `(x, y)` in a `w` by `h` grid: inside the
/// grid, at most one step away along each axis, and not `(x, y)` itself.
pub open spec fn is_neighbour(x: int, y: int, w: int, h: int, q: (int, int)) -> bool {
    &&& in_grid(q.0, q.1, w, h)
    &&& -1 <= q.0 - x <= 1
    &&& -1 <= q.1 - y <= 1
    &&& q != (x, y)
}

/// How many of the three columns (or rows) around `c` exist in a line of `n`.
pub open spec fn span(c: int, n: int) -> int {
    1 + (if c > 0 { 1int } else { 0int }) + (if c < n - 1 { 1int } else { 0int })
}

proof fn lemma_block_row_sound(x: int, y: int, w: int, h: int, dy: int, n: int)
    requires
        -1 <= dy <= 1,
        n <= 3,
    ensures
        forall|i: int|
            0 <= i < block_row(x, y, w, h, dy, n).len() ==> {
                let q = #[trigger] block_row(x, y, w, h, dy, n)[i];
                is_neighbour(x, y, w, h, q) && q.1 == y + dy
            },
    decreases n,
{
    if n > 0 {
        lemma_block_row_sound(x, y, w, h, dy, n - 1);
        let prev = block_row(x, y, w, h, dy, n - 1);
        assert forall|i: int| 0 <= i < block_row(x, y, w, h, dy, n).len() implies {
            let q = #[trigger] block_row(x, y, w, h, dy, n)[i];
            is_neighbour(x, y, w, h, q) && q.1 == y + dy
        } by {
            if i < prev.len() {
                assert(block_row(x, y, w, h, dy, n)[i] == prev[i]);
            }
        }
    }
}

proof fn lemma_block_rows_sound(x: int, y: int, w: int, h: int, m: int)
    requires
        m <= 3,
    ensures
        forall|i: int|
            0 <= i < block_rows(x, y, w, h, m).len() ==> is_neighbour(
                x,
                y,
                w,
                h,
                #[trigger] block_rows(x, y, w, h, m)[i],
            ),
    decreases m,
{
    if m > 0 {
        lemma_block_rows_sound(x, y, w, h, m - 1);
        lemma_block_row_sound(x, y, w, h, m - 2, 3);
        let prev = block_rows(x, y, w, h, m - 1);
        let row = block_row(x, y, w, h, m - 2, 3);
        assert forall|i: int| 0 <= i < block_rows(x, y, w, h, m).len() implies is_neighbour(
            x,
            y,
            w,
            h,
            #[trigger] block_rows(x, y, w, h, m)[i],
        ) by {
            if i >= prev.len() {
                assert(block_rows(x, y, w, h, m)[i] == row[i - prev.len()]);
            } else {
                assert(block_rows(x, y, w, h, m)[i] == prev[i]);
            }
        }
    }
}

/// Every position in the neighbourhood of `(x, y)` is a Moore neighbour of it:
/// inside the grid, no more than one step away along either axis, and not
/// `(x, y)` itself. No position of the neighbourhood comes from wrapping
/// around an edge.
pub proof fn lemma_neighbours_in_reach(x: int, y: int, w: int, h: int)
    ensures
        forall|i: int|
            0 <= i < neighbour_coords(x, y, w, h).len() ==> is_neighbour(
                x,
                y,
                w,
                h,
                #[trigger] neighbour_coords(x, y, w, h)[i],
            ),
{
    lemma_block_rows_sound(x, y, w, h, 3);
}

proof fn lemma_block_row_complete(x: int, y: int, w: int, h: int, dy: int, n: int, q: (int, int))
    requires
        is_neighbour(x, y, w, h, q),
        q.1 == y + dy,
        q.0 <= x + n - 2,
    ensures
        block_row(x, y, w, h, dy, n).contains(q),
    decreases n,
{
    let row = block_row(x, y, w, h, dy, n);
    let prev = block_row(x, y, w, h, dy, n - 1);
    if q.0 == x + n - 2 {
        assert(row[prev.len() as int] == q);
    } else {
        lemma_block_row_complete(x, y, w, h, dy, n - 1, q);
        let i = choose|i: int| 0 <= i < prev.len() && prev[i] == q;
        assert(row[i] == q);
    }
}

proof fn lemma_block_rows_complete(x: int, y: int, w: int, h: int, m: int, q: (int, int))
    requires
        is_neighbour(x, y, w, h, q),
        q.1 <= y + m - 2,
    ensures
        block_rows(x, y, w, h, m).contains(q),
    decreases m,
{
    let rows = block_rows(x, y, w, h, m);
    let prev = block_rows(x, y, w, h, m - 1);
    if q.1 == y + m - 2 {
        lemma_block_row_complete(x, y, w, h, m - 2, 3, q);
        let row = block_row(x, y, w, h, m - 2, 3);
        let j = choose|j: int| 0 <= j < row.len() && row[j] == q;
        assert(rows[prev.len() + j] == q);
    } else {
        lemma_block_rows_complete(x, y, w, h, m - 1, q);
        let i = choose|i: int| 0 <= i < prev.len() && prev[i] == q;
        assert(rows[i] == q);
    }
}

/// Every Moore neighbour of `(x, y)` appears in its neighbourhood; with
/// `lemma_neighbours_in_reach`, the neighbourhood holds exactly the
/// positions around `(x, y)` that lie inside the grid.
pub proof fn lemma_neighbours_complete(x: int, y: int, w: int, h: int, q: (int, int))
    requires
        is_neighbour(x, y, w, h, q),
    ensures
        neighbour_coords(x, y, w, h).contains(q),
{
    lemma_block_rows_complete(x, y, w, h, 3, q);
}

/// The neighbourhood of the corner `(0, 0)` never holds the opposite corner
/// `(w - 1, h - 1)`, nor a position with a negative or out-of-range component.
/// (In a grid of at most 2 by 2 the opposite corner is a true neighbour, so
/// such grids are left out.)
pub proof fn lemma_corner_does_not_wrap(w: int, h: int)
    requires
        w > 2 || h > 2,
    ensures
        !neighbour_coords(0, 0, w, h).contains((w - 1, h - 1)),
        forall|i: int|
            0 <= i < neighbour_coords(0, 0, w, h).len() ==> in_grid(
                (#[trigger] neighbour_coords(0, 0, w, h)[i]).0,
                neighbour_coords(0, 0, w, h)[i].1,
                w,
                h,
            ),
{
    lemma_neighbours_in_reach(0, 0, w, h);
}

proof fn lemma_block_row_len(x: int, y: int, w: int, h: int, dy: int)
    requires
        in_grid(x, y, w, h),
        -1 <= dy <= 1,
    ensures
        block_row(x, y, w, h, dy, 3).len() == if 0 <= y + dy < h {
            span(x, w) - if dy == 0 { 1int } else { 0int }
        } else {
            0
        },
{
    reveal_with_fuel(block_row, 4);
}

/// The neighbourhood of a position has one entry per existing column around
/// it times one per existing row, less the position itself. In a grid of at
/// least 2 by 2 a corner has three neighbours; along an edge of a grid at
/// least 3 long a position has five, and inside, eight.
pub proof fn lemma_neighbour_count(x: int, y: int, w: int, h: int)
    requires
        in_grid(x, y, w, h),
    ensures
        neighbour_coords(x, y, w, h).len() == span(x, w) * span(y, h) - 1,
        (x == 0 || x == w - 1) && (y == 0 || y == h - 1) && w >= 2 && h >= 2
            ==> neighbour_coords(x, y, w, h).len() == 3,
        0 < x < w - 1 && (y == 0 || y == h - 1) && h >= 2 ==> neighbour_coords(x, y, w, h).len()
            == 5,
        (x == 0 || x == w - 1) && 0 < y < h - 1 && w >= 2 ==> neighbour_coords(x, y, w, h).len()
            == 5,
        0 < x < w - 1 && 0 < y < h - 1 ==> neighbour_coords(x, y, w, h).len() == 8,
{
    lemma_block_row_len(x, y, w, h, -1);
    lemma_block_row_len(x, y, w, h, 0);
    lemma_block_row_len(x, y, w, h, 1);
    reveal_with_fuel(block_rows, 4);
    let sx = span(x, w);
    let sy = span(y, h);
    assert(sy == 1 + (if y > 0 { 1int } else { 0int }) + (if y < h - 1 { 1int } else { 0int }));
    assert(sx * sy == sx + (if y > 0 { sx } else { 0int }) + (if y < h - 1 { sx } else { 0int })) by (nonlinear_arith)
        requires
            sy == 1 + (if y > 0 { 1int } else { 0int }) + (if y < h - 1 { 1int } else { 0int }),
    ;
}

} // verus!
