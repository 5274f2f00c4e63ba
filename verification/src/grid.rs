//! Geometry of the hexagonal grid.
//!
//! Cells are addressed by column `x` and row `y`. Odd rows are shifted half a
//! cell to the right, so which six cells touch a given cell depends on whether
//! its row is even or odd. The grid is a torus: stepping off one edge enters at
//! the opposite one.

use vstd::prelude::*;
use vstd::arithmetic::div_mod::lemma_fundamental_div_mod;
use vstd::arithmetic::div_mod::lemma_fundamental_div_mod_converse;

verus! {

/// The coordinate `v` brought into `0..n`.
pub open spec fn wrap(v: int, n: int) -> int {
    v % n
}

/// The six cells that touch cell `(x, y)` on a torus of `width` columns and
/// `height` rows, clockwise from the upper left: upper left, upper right,
/// right, lower right, lower left, left.
pub open spec fn neighbor_cells(x: int, y: int, width: int, height: int) -> Seq<(int, int)> {
    let left = wrap(x - 1, width);
    let here = wrap(x, width);
    let right = wrap(x + 1, width);
    let up = wrap(y - 1, height);
    let level = wrap(y, height);
    let down = wrap(y + 1, height);
    if y % 2 == 0 {
        seq![(left, up), (here, up), (right, level), (here, down), (left, down), (left, level)]
    } else {
        seq![(here, up), (right, up), (right, level), (right, down), (here, down), (left, level)]
    }
}

/// A list of cells as pairs of mathematical integers.
pub open spec fn cells_of(v: Seq<(usize, usize)>) -> Seq<(int, int)> {
    Seq::new(v.len(), |k: int| (v[k].0 as int, v[k].1 as int))
}

/// Every neighbor of every cell lies on the grid.
pub proof fn lemma_neighbors_on_grid(x: int, y: int, width: int, height: int)
    requires
        width > 0,
        height > 0,
    ensures
        neighbor_cells(x, y, width, height).len() == 6,
        forall|k: int|
            0 <= k < 6 ==> {
                &&& 0 <= (#[trigger] neighbor_cells(x, y, width, height)[k]).0 < width
                &&& 0 <= neighbor_cells(x, y, width, height)[k].1 < height
            },
{
}

/// The coordinate before `v` on a ring of `n` cells.
pub fn wrap_prev(v: usize, n: usize) -> (r: usize)
    requires
        n > 0,
    ensures
        r == wrap(v - 1, n as int),
        r < n,
{
    let m: usize = v % n;
    proof {
        let q = v as int / n as int;
        lemma_fundamental_div_mod(v as int, n as int);
        if m == 0 {
            assert(v - 1 == (q - 1) * n + (n - 1)) by (nonlinear_arith)
                requires
                    v == n * q + 0,
            ;
            lemma_fundamental_div_mod_converse(v - 1, n as int, q - 1, n - 1);
        } else {
            assert(v - 1 == q * n + (m - 1)) by (nonlinear_arith)
                requires
                    v == n * q + m,
            ;
            lemma_fundamental_div_mod_converse(v - 1, n as int, q, m - 1);
        }
    }
    if m == 0 {
        n - 1
    } else {
        m - 1
    }
}

/// The coordinate after `v` on a ring of `n` cells.
pub fn wrap_next(v: usize, n: usize) -> (r: usize)
    requires
        n > 0,
    ensures
        r == wrap(v + 1, n as int),
        r < n,
{
    let m: usize = v % n;
    proof {
        let q = v as int / n as int;
        lemma_fundamental_div_mod(v as int, n as int);
        if m == n - 1 {
            assert(v + 1 == (q + 1) * n + 0) by (nonlinear_arith)
                requires
                    v == n * q + (n - 1),
            ;
            lemma_fundamental_div_mod_converse(v + 1, n as int, q + 1, 0);
        } else {
            assert(v + 1 == q * n + (m + 1)) by (nonlinear_arith)
                requires
                    v == n * q + m,
            ;
            lemma_fundamental_div_mod_converse(v + 1, n as int, q, m + 1);
        }
    }
    if m == n - 1 {
        0
    } else {
        m + 1
    }
}

/// The six neighbors of cell `(x, y)`, in the order of [`neighbor_cells`].
pub fn neighbors(x: usize, y: usize, width: usize, height: usize) -> (cells: Vec<(usize, usize)>)
    requires
        width > 0,
        height > 0,
    ensures
        cells_of(cells@) == neighbor_cells(x as int, y as int, width as int, height as int),
        cells@.len() == 6,
        forall|k: int|
            0 <= k < 6 ==> (#[trigger] cells@[k]).0 == neighbor_cells(
                x as int,
                y as int,
                width as int,
                height as int,
            )[k].0 && cells@[k].1 == neighbor_cells(
                x as int,
                y as int,
                width as int,
                height as int,
            )[k].1,
        forall|k: int| 0 <= k < 6 ==> (#[trigger] cells@[k]).0 < width && cells@[k].1 < height,
{
    let left: usize = wrap_prev(x, width);
    let here: usize = x % width;
    let right: usize = wrap_next(x, width);
    let up: usize = wrap_prev(y, height);
    let level: usize = y % height;
    let down: usize = wrap_next(y, height);
    if y % 2 == 0 {
        vec![(left, up), (here, up), (right, level), (here, down), (left, down), (left, level)]
    } else {
        vec![(here, up), (right, up), (right, level), (right, down), (here, down), (left, level)]
    }
}

} // verus!
