//! Facts about the rule of life that hold of every board.
use vstd::prelude::*;

use crate::rules::{at, dead_grid, grid_of, is_grid, neighbors, rule, step, steps};

verus! {

/// A `w` by `h` grid whose live cells are the 2x2 block with top left
/// corner `(r, c)`.
pub open spec fn block_grid(w: int, h: int, r: int, c: int) -> Seq<Seq<u8>> {
    Seq::new(
        h as nat,
        |i: int|
            Seq::new(
                w as nat,
                |j: int|
                    if r <= i <= r + 1 && c <= j <= c + 1 {
                        1u8
                    } else {
                        0u8
                    },
            ),
    )
}

/// A `w` by `h` grid whose live cells are `(r, c - 1)`, `(r, c)` and
/// `(r, c + 1)`: a horizontal blinker.
pub open spec fn blinker_h(w: int, h: int, r: int, c: int) -> Seq<Seq<u8>> {
    Seq::new(
        h as nat,
        |i: int|
            Seq::new(
                w as nat,
                |j: int|
                    if i == r && c - 1 <= j <= c + 1 {
                        1u8
                    } else {
                        0u8
                    },
            ),
    )
}

/// A `w` by `h` grid whose live cells are `(r - 1, c)`, `(r, c)` and
/// `(r + 1, c)`: a vertical blinker.
pub open spec fn blinker_v(w: int, h: int, r: int, c: int) -> Seq<Seq<u8>> {
    Seq::new(
        h as nat,
        |i: int|
            Seq::new(
                w as nat,
                |j: int|
                    if j == c && r - 1 <= i <= r + 1 {
                        1u8
                    } else {
                        0u8
                    },
            ),
    )
}

/// Stepping keeps a grid's shape and keeps every cell 0 or 1; a cell of the
/// next generation is alive exactly when it had three live neighbours, or
/// had two and was alive itself. Neighbours off the grid count as dead.
pub proof fn lemma_rule_fidelity(g: Seq<Seq<u8>>, w: int, h: int, r: int, c: int)
    requires
        is_grid(g, w, h),
        0 <= r < h,
        0 <= c < w,
    ensures
        is_grid(step(g), w, h),
        step(g)[r][c] == 1 <==> (neighbors(g, r, c) == 3 || (neighbors(g, r, c) == 2 && g[r][c]
            == 1)),
        step(g)[r][c] == 0 <==> !(neighbors(g, r, c) == 3 || (neighbors(g, r, c) == 2 && g[r][c]
            == 1)),
{
    assert(g[r][c] <= 1);
}

/// A board with no live cell stays without one, generation after
/// generation.
pub proof fn lemma_dead_stays_dead(w: int, h: int, n: nat)
    requires
        0 <= w,
        0 <= h,
    ensures
        steps(dead_grid(w, h), n) == dead_grid(w, h),
    decreases n,
{
    if n > 0 {
        lemma_dead_stays_dead(w, h, (n - 1) as nat);
        let g = dead_grid(w, h);
        assert forall|r: int, c: int| 0 <= r < h && 0 <= c < w implies neighbors(g, r, c) == 0 by {}
        assert(step(g) =~~= g);
    }
}

/// Two boards that start equal stay equal for any number of generations:
/// the next generation depends on the current one alone.
pub proof fn lemma_deterministic(g1: Seq<Seq<u8>>, g2: Seq<Seq<u8>>, n: nat)
    requires
        g1 == g2,
    ensures
        steps(g1, n) == steps(g2, n),
{
}

/// Two boards seeded row by row with the same cells (as `from_cells` and
/// `new_random` lay them out) go through the same generations, for any
/// number of steps.
pub proof fn lemma_seeded_deterministic(s1: Seq<u8>, s2: Seq<u8>, w: int, h: int, n: nat)
    requires
        s1 == s2,
    ensures
        grid_of(s1, w, h) == grid_of(s2, w, h),
        steps(grid_of(s1, w, h), n) == steps(grid_of(s2, w, h), n),
{
}

/// A 2x2 block is unchanged by any number of generations.
pub proof fn lemma_block_still(w: int, h: int, r: int, c: int, n: nat)
    requires
        0 <= r,
        r + 1 < h,
        0 <= c,
        c + 1 < w,
    ensures
        step(block_grid(w, h, r, c)) == block_grid(w, h, r, c),
        steps(block_grid(w, h, r, c), n) == block_grid(w, h, r, c),
    decreases n,
{
    let g = block_grid(w, h, r, c);
    assert forall|i: int, j: int| #[trigger] at(g, i, j) == if r <= i <= r + 1 && c <= j <= c + 1 {
        1int
    } else {
        0int
    } by {}
    assert forall|i: int, j: int| 0 <= i < h && 0 <= j < w implies #[trigger] step(g)[i][j]
        == g[i][j] by {
        let n = neighbors(g, i, j);
        assert(step(g)[i][j] == rule(g[i][j] as int, n) as u8);
    }
    assert(step(g) =~~= g);
    if n > 0 {
        lemma_block_still(w, h, r, c, (n - 1) as nat);
    }
}

/// A blinker turns from horizontal to vertical and back: it is back where
/// it started after two generations, and not after one.
pub proof fn lemma_blinker(w: int, h: int, r: int, c: int)
    requires
        1 <= r,
        r + 1 < h,
        1 <= c,
        c + 1 < w,
    ensures
        step(blinker_h(w, h, r, c)) == blinker_v(w, h, r, c),
        step(blinker_v(w, h, r, c)) == blinker_h(w, h, r, c),
        steps(blinker_h(w, h, r, c), 2) == blinker_h(w, h, r, c),
        steps(blinker_h(w, h, r, c), 1) != blinker_h(w, h, r, c),
{
    let gh = blinker_h(w, h, r, c);
    let gv = blinker_v(w, h, r, c);
    assert forall|i: int, j: int| #[trigger] at(gh, i, j) == if i == r && c - 1 <= j <= c + 1 {
        1int
    } else {
        0int
    } by {}
    assert forall|i: int, j: int| #[trigger] at(gv, i, j) == if j == c && r - 1 <= i <= r + 1 {
        1int
    } else {
        0int
    } by {}
    assert forall|i: int, j: int| 0 <= i < h && 0 <= j < w implies #[trigger] step(gh)[i][j]
        == gv[i][j] by {
        let n = neighbors(gh, i, j);
        assert(step(gh)[i][j] == rule(gh[i][j] as int, n) as u8);
    }
    assert(step(gh) =~~= gv);
    assert forall|i: int, j: int| 0 <= i < h && 0 <= j < w implies #[trigger] step(gv)[i][j]
        == gh[i][j] by {
        let n = neighbors(gv, i, j);
        assert(step(gv)[i][j] == rule(gv[i][j] as int, n) as u8);
    }
    assert(step(gv) =~~= gh);
    assert(steps(gh, 1) == step(steps(gh, 0)));
    assert(steps(gh, 2) == step(steps(gh, 1)));
    assert(gv[r - 1][c] != gh[r - 1][c]);
}

} // verus!
