//! The rule of life over a mathematical grid: a sequence of rows of cells,
//! each cell 0 (dead) or 1 (alive).
use vstd::prelude::*;

verus! {

/// The next state of a cell that is `cur` and has `n` live neighbours.
pub open spec fn rule(cur: int, n: int) -> int {
    if n == 3 {
        1
    } else if n == 2 {
        cur
    } else {
        0
    }
}

/// The cell at row `r`, column `c`; anything off the grid is dead.
pub open spec fn at(g: Seq<Seq<u8>>, r: int, c: int) -> int {
    if 0 <= r < g.len() && 0 <= c < g[r].len() {
        g[r][c] as int
    } else {
        0
    }
}

/// The number of live cells among the eight neighbours of `(r, c)`.
pub open spec fn neighbors(g: Seq<Seq<u8>>, r: int, c: int) -> int {
    at(g, r - 1, c - 1) + at(g, r - 1, c) + at(g, r - 1, c + 1) + at(g, r, c - 1) + at(g, r, c + 1)
        + at(g, r + 1, c - 1) + at(g, r + 1, c) + at(g, r + 1, c + 1)
}

/// The next generation of `g`.
pub open spec fn step(g: Seq<Seq<u8>>) -> Seq<Seq<u8>> {
    Seq::new(
        g.len(),
        |r: int| Seq::new(g[r].len(), |c: int| rule(g[r][c] as int, neighbors(g, r, c)) as u8),
    )
}

/// The generation `n` steps after `g`.
pub open spec fn steps(g: Seq<Seq<u8>>, n: nat) -> Seq<Seq<u8>>
    decreases n,
{
    if n == 0 {
        g
    } else {
        step(steps(g, (n - 1) as nat))
    }
}

/// `g` has `h` rows of `w` cells, each 0 or 1.
pub open spec fn is_grid(g: Seq<Seq<u8>>, w: int, h: int) -> bool {
    &&& g.len() == h
    &&& forall|r: int| 0 <= r < h ==> #[trigger] g[r].len() == w
    &&& forall|r: int, c: int| 0 <= r < h && 0 <= c < w ==> #[trigger] g[r][c] <= 1
}

/// The grid of `h` rows of `w` dead cells.
pub open spec fn dead_grid(w: int, h: int) -> Seq<Seq<u8>> {
    Seq::new(h as nat, |r: int| Seq::new(w as nat, |c: int| 0u8))
}

/// The `w` by `h` grid whose cell `(i, j)` is `cells[i * w + j]`: cells
/// listed row by row.
pub open spec fn grid_of(cells: Seq<u8>, w: int, h: int) -> Seq<Seq<u8>> {
    Seq::new(h as nat, |i: int| Seq::new(w as nat, |j: int| cells[i * w + j]))
}

} // verus!
