//! The generation engine: a current board, a scratch board for the next
//! generation, and a scratch board of vertical three-cell sums.
use vstd::prelude::*;

use crate::board::{fits, Board, BoardSize};
use crate::lane::{lane_rule, lane_sum, LANE_WIDTH};
use crate::random::random_cell;
use crate::rules::{at, dead_grid, grid_of, is_grid, rule, step};

verus! {

/// Why a grid cannot be built.
#[derive(Debug, Clone, Copy, PartialEq, Eq)]
pub enum LifeError {
    /// The vertical pass needs at least two rows.
    HeightTooSmall,
}

/// A Game of Life board that advances one generation per `update`.
pub struct Life {
    size: BoardSize,
    current: Board,
    next: Board,
    triplets: Board,
}

/// Every real cell of `b` is 0 or 1, and every shadow cell is dead.
spec fn live(b: Board, s: BoardSize) -> bool {
    &&& b.wf(s)
    &&& forall|r: int, c: int|
        0 <= r < s.h && 0 <= c < s.span() ==> 0 <= #[trigger] b.cell(s, r, c) <= 1 && (c >= s.w
            ==> b.cell(s, r, c) == 0)
}

/// Cell `(r, c)` of `b` plus the cells above and below it; rows off the
/// grid count as dead.
spec fn col3(b: Board, s: BoardSize, r: int, c: int) -> int {
    (if r >= 1 {
        b.cell(s, r - 1, c)
    } else {
        0
    }) + b.cell(s, r, c) + (if r + 1 < s.h {
        b.cell(s, r + 1, c)
    } else {
        0
    })
}

/// What the rule pass writes into cell `(r, c)`: the rule applied to the
/// 3x3 sum less the cell itself, and dead beyond the logical width.
spec fn next_cell(b: Board, s: BoardSize, r: int, c: int) -> int {
    if c < s.w {
        rule(
            b.cell(s, r, c),
            col3(b, s, r, c - 1) + col3(b, s, r, c) + col3(b, s, r, c + 1) - b.cell(s, r, c),
        )
    } else {
        0
    }
}

impl View for Life {
    type V = Seq<Seq<u8>>;

    /// The current generation, row by row.
    closed spec fn view(&self) -> Seq<Seq<u8>> {
        Seq::new(
            self.size.h as nat,
            |r: int| Seq::new(self.size.w as nat, |c: int| self.current.cell(self.size, r, c) as u8),
        )
    }
}

impl Life {
    /// The three boards are sized for the geometry with dead sentinels, the
    /// height is at least two, and the current board holds only 0 and 1
    /// with every shadow cell dead.
    pub closed spec fn wf(&self) -> bool {
        &&& self.size.wf()
        &&& self.size.h >= 2
        &&& live(self.current, self.size)
        &&& self.next.wf(self.size)
        &&& self.triplets.wf(self.size)
    }

    /// Every stored cell of the current board, sentinels and shadow cells
    /// included, is what the grid holds there.
    proof fn lemma_cell_at(&self, r: int, c: int)
        requires
            self.wf(),
            0 <= r < self.size.h,
            -1 <= c <= self.size.span(),
        ensures
            self.current.cell(self.size, r, c) == at(self@, r, c),
            self.current.cell(self.size, r, c) <= 1,
    {
        assert(self.current.cell(self.size, r, -1) == 0);
        if 0 <= c < self.size.span() {
            assert(self.current.cell(self.size, r, c) <= 1);
        }
    }

    /// A column's vertical sum is the sum of the grid's three cells there.
    proof fn lemma_col3_at(&self, r: int, c: int)
        requires
            self.wf(),
            0 <= r < self.size.h,
            -1 <= c <= self.size.span(),
        ensures
            col3(self.current, self.size, r, c) == at(self@, r - 1, c) + at(self@, r, c) + at(
                self@,
                r + 1,
                c,
            ),
            0 <= col3(self.current, self.size, r, c) <= 3,
    {
        self.lemma_cell_at(r, c);
        if r >= 1 {
            self.lemma_cell_at(r - 1, c);
        }
        if r + 1 < self.size.h {
            self.lemma_cell_at(r + 1, c);
        }
    }

    /// An empty board of `w` by `h` cells; fails when `h` is under two.
    pub fn new(w: u32, h: u32) -> (r: Result<Life, LifeError>)
        requires
            h < 2 || fits(w, h),
        ensures
            r is Err <==> h < 2,
            r is Err ==> r == Err::<Life, LifeError>(LifeError::HeightTooSmall),
            r matches Ok(l) ==> l.wf() && l@ == dead_grid(w as int, h as int),
    {
        if h < 2 {
            return Err(LifeError::HeightTooSmall);
        }
        let size = BoardSize::new(w, h);
        let l = Life {
            size,
            current: Board::new(size),
            next: Board::new(size),
            triplets: Board::new(size),
        };
        assert(l@ =~~= dead_grid(w as int, h as int));
        Ok(l)
    }

    /// Pass one: for every lane, slide a three-row window down the board and
    /// store each row's vertical sum in `triplets`.
    fn calc_triplets(&mut self)
        requires
            old(self).wf(),
        ensures
            final(self).size == old(self).size,
            final(self).current == old(self).current,
            final(self).next == old(self).next,
            final(self).triplets.wf(final(self).size),
            forall|r: int, c: int|
                0 <= r < final(self).size.h && 0 <= c < final(self).size.span()
                    ==> #[trigger] final(self).triplets.cell(final(self).size, r, c) == col3(
                    final(self).current,
                    final(self).size,
                    r,
                    c,
                ),
    {
        let s = self.size;
        let h = s.h;
        assert(h >= 2);
        let mut i: u32 = 0;
        while i < s.line_width
            invariant
                self.wf(),
                self.size == s,
                s.wf(),
                h == s.h,
                h >= 2,
                self.current == old(self).current,
                self.next == old(self).next,
                i <= s.line_width,
                forall|r: int, c: int|
                    0 <= r < h && 0 <= c < i * 64 ==> #[trigger] self.triplets.cell(s, r, c)
                        == col3(self.current, s, r, c),
            decreases s.line_width - i,
        {
            let x = i * LANE_WIDTH;
            let mut a = self.current.block_get(s, 0, x);
            let mut b = self.current.block_get(s, 1, x);
            assert forall|k: int| 0 <= k < 64 implies a@[k] + b@[k] <= 255 && a@[k] <= 1 && b@[k]
                <= 1 by {
                assert(self.current.cell(s, 0, x + k) <= 1);
                assert(self.current.cell(s, 1, x + k) <= 1);
            }
            let ab = lane_sum(&a, &b);
            self.triplets.block_set(s, 0, x, &ab);
            let mut j: u32 = 1;
            while j < h - 1
                invariant
                    self.wf(),
                    self.size == s,
                    s.wf(),
                    h == s.h,
                    h >= 2,
                    self.current == old(self).current,
                    self.next == old(self).next,
                    i < s.line_width,
                    x == i * 64,
                    1 <= j <= h - 1,
                    forall|k: int|
                        0 <= k < 64 ==> #[trigger] a@[k] == self.current.cell(s, j - 1, x + k),
                    forall|k: int|
                        0 <= k < 64 ==> #[trigger] b@[k] == self.current.cell(s, j as int, x + k),
                    forall|r: int, c: int|
                        0 <= r < h && 0 <= c < s.span() && (c < x || (c < x + 64 && r < j))
                            ==> #[trigger] self.triplets.cell(s, r, c) == col3(
                            self.current,
                            s,
                            r,
                            c,
                        ),
                decreases h - j,
            {
                let c = self.current.block_get(s, j + 1, x);
                assert forall|k: int| 0 <= k < 64 implies a@[k] + b@[k] <= 2 && c@[k] <= 1 by {
                    assert(self.current.cell(s, j - 1, x + k) <= 1);
                    assert(self.current.cell(s, j as int, x + k) <= 1);
                    assert(self.current.cell(s, j + 1, x + k) <= 1);
                }
                let ab = lane_sum(&a, &b);
                let abc = lane_sum(&ab, &c);
                self.triplets.block_set(s, j, x, &abc);
                a = b;
                b = c;
                j += 1;
            }
            assert forall|k: int| 0 <= k < 64 implies a@[k] + b@[k] <= 255 by {
                assert(self.current.cell(s, h - 2, x + k) <= 1);
                assert(self.current.cell(s, h - 1, x + k) <= 1);
            }
            let ab = lane_sum(&a, &b);
            self.triplets.block_set(s, h - 1, x, &ab);
            i += 1;
        }
    }

    /// Pass two: for every row and lane, add the left, middle and right
    /// vertical sums, and apply the rule to each cell of the logical width.
    fn calc_next(&mut self)
        requires
            old(self).wf(),
            forall|r: int, c: int|
                0 <= r < old(self).size.h && 0 <= c < old(self).size.span()
                    ==> #[trigger] old(self).triplets.cell(old(self).size, r, c) == col3(
                    old(self).current,
                    old(self).size,
                    r,
                    c,
                ),
        ensures
            final(self).size == old(self).size,
            final(self).current == old(self).current,
            final(self).triplets == old(self).triplets,
            final(self).next.wf(final(self).size),
            forall|r: int, c: int|
                0 <= r < final(self).size.h && 0 <= c < final(self).size.span()
                    ==> #[trigger] final(self).next.cell(final(self).size, r, c) == next_cell(
                    final(self).current,
                    final(self).size,
                    r,
                    c,
                ),
    {
        let s = self.size;
        let h = s.h;
        assert forall|r: int, c: int| 0 <= r < h && -1 <= c <= s.span() implies #[trigger] self.triplets.cell(
            s,
            r,
            c,
        ) == col3(self.current, s, r, c) && 0 <= col3(self.current, s, r, c) <= 3 by {
            self.lemma_col3_at(r, c);
            assert(self.triplets.cell(s, r, -1) == 0);
            assert(self.current.cell(s, r, -1) == 0);
            if r >= 1 {
                assert(self.current.cell(s, r - 1, -1) == 0);
            }
            if r + 1 < h {
                assert(self.current.cell(s, r + 1, -1) == 0);
            }
        }
        let mut i: u32 = 0;
        while i < h
            invariant
                self.wf(),
                self.size == s,
                s.wf(),
                h == s.h,
                self.current == old(self).current,
                self.triplets == old(self).triplets,
                i <= h,
                forall|r: int, c: int|
                    0 <= r < h && -1 <= c <= s.span() ==> #[trigger] self.triplets.cell(s, r, c)
                        == col3(self.current, s, r, c) && 0 <= col3(self.current, s, r, c) <= 3,
                forall|r: int, c: int|
                    0 <= r < i && 0 <= c < s.span() ==> #[trigger] self.next.cell(s, r, c)
                        == next_cell(self.current, s, r, c),
            decreases h - i,
        {
            let mut j: u32 = 0;
            while j < s.line_width
                invariant
                    self.wf(),
                    self.size == s,
                    s.wf(),
                    h == s.h,
                    self.current == old(self).current,
                    self.triplets == old(self).triplets,
                    i < h,
                    j <= s.line_width,
                    forall|r: int, c: int|
                        0 <= r < h && -1 <= c <= s.span() ==> #[trigger] self.triplets.cell(s, r, c)
                            == col3(self.current, s, r, c) && 0 <= col3(self.current, s, r, c)
                            <= 3,
                    forall|r: int, c: int|
                        0 <= r < h && 0 <= c < s.span() && (r < i || (r == i && c < j * 64))
                            ==> #[trigger] self.next.cell(s, r, c) == next_cell(
                            self.current,
                            s,
                            r,
                            c,
                        ),
                decreases s.line_width - j,
            {
                let x = j * LANE_WIDTH;
                let a = self.triplets.block_get_prev(s, i, x);
                let b = self.triplets.block_get(s, i, x);
                let c = self.triplets.block_get_next(s, i, x);
                let cur = self.current.block_get(s, i, x);
                assert forall|k: int| 0 <= k < 64 implies a@[k] + b@[k] <= 6 && c@[k] <= 3 && cur@[k]
                    <= 1 && cur@[k] <= b@[k] by {
                    assert(self.triplets.cell(s, i as int, x + k - 1) <= 3);
                    assert(self.triplets.cell(s, i as int, x + k) <= 3);
                    assert(self.triplets.cell(s, i as int, x + k + 1) <= 3);
                    assert(self.current.cell(s, i as int, x + k) <= 1);
                    if i >= 1 {
                        assert(self.current.cell(s, i - 1, x + k) <= 1);
                    }
                    if i + 1 < h {
                        assert(self.current.cell(s, i + 1, x + k) <= 1);
                    }
                }
                let ab = lane_sum(&a, &b);
                let total = lane_sum(&ab, &c);
                let live: usize = if x >= s.w {
                    0
                } else if s.w - x >= LANE_WIDTH {
                    64
                } else {
                    (s.w - x) as usize
                };
                let act = lane_rule(&total, &cur, live);
                self.next.block_set(s, i, x, &act);
                j += 1;
            }
            i += 1;
        }
    }

    /// Advances the board by one generation.
    pub fn update(&mut self)
        requires
            old(self).wf(),
        ensures
            final(self).wf(),
            final(self)@ == step(old(self)@),
    {
        self.calc_triplets();
        self.calc_next();
        std::mem::swap(&mut self.current, &mut self.next);
        proof {
            let s = self.size;
            let g = old(self)@;
            let prev = self.next;
            assert forall|r: int, c: int| 0 <= r < s.h && 0 <= c < s.span() implies 0
                <= #[trigger] self.current.cell(s, r, c) <= 1 && (c >= s.w ==> self.current.cell(
                s,
                r,
                c,
            ) == 0) by {
                assert(prev.cell(s, r, c) <= 1);
            }
            assert forall|r: int, c: int| 0 <= r < s.h && 0 <= c < s.w implies #[trigger] self@[r][c]
                == step(g)[r][c] by {
                old(self).lemma_col3_at(r, c - 1);
                old(self).lemma_col3_at(r, c);
                old(self).lemma_col3_at(r, c + 1);
                old(self).lemma_cell_at(r, c);
                assert(self.current.cell(s, r, c) == next_cell(prev, s, r, c));
            }
            assert forall|r: int| 0 <= r < s.h implies #[trigger] self@[r] =~= step(g)[r] by {}
            assert(self@ =~= step(g));
        }
    }

    /// A board of `w` by `h` cells whose cell `(i, j)` is `cells[i * w + j]`;
    /// fails when `h` is under two.
    pub fn from_cells(w: u32, h: u32, cells: &Vec<u8>) -> (r: Result<Life, LifeError>)
        requires
            h < 2 || fits(w, h),
            cells@.len() == w * h,
            forall|k: int| 0 <= k < cells@.len() ==> #[trigger] cells@[k] <= 1,
        ensures
            r is Err <==> h < 2,
            r is Err ==> r == Err::<Life, LifeError>(LifeError::HeightTooSmall),
            r matches Ok(l) ==> l.wf() && is_grid(l@, w as int, h as int) && l@ == grid_of(
                cells@,
                w as int,
                h as int,
            ),
    {
        let mut l = match Life::new(w, h) {
            Ok(l) => l,
            Err(e) => return Err(e),
        };
        assert(w * h <= u32::MAX) by (nonlinear_arith)
            requires
                fits(w, h),
                w < ((w as int + 63) / 64 * 64 + 2),
        ;
        let mut k: usize = 0;
        let mut i: u32 = 0;
        while i < h
            invariant
                l.wf(),
                is_grid(l@, w as int, h as int),
                cells@.len() == w * h,
                w * h <= u32::MAX,
                forall|n: int| 0 <= n < cells@.len() ==> #[trigger] cells@[n] <= 1,
                i <= h,
                k == i * w,
                forall|r: int, c: int|
                    0 <= r < i && 0 <= c < w ==> #[trigger] l@[r][c] == cells@[r * w + c],
            decreases h - i,
        {
            let mut j: u32 = 0;
            while j < w
                invariant
                    l.wf(),
                    is_grid(l@, w as int, h as int),
                    cells@.len() == w * h,
                    w * h <= u32::MAX,
                    forall|n: int| 0 <= n < cells@.len() ==> #[trigger] cells@[n] <= 1,
                    i < h,
                    j <= w,
                    k == i * w + j,
                    forall|r: int, c: int|
                        0 <= r < h && 0 <= c < w && (r < i || (r == i && c < j))
                            ==> #[trigger] l@[r][c] == cells@[r * w + c],
                decreases w - j,
            {
                assert(i * w + j < w * h) by (nonlinear_arith)
                    requires
                        i < h,
                        j < w,
                ;
                l.set(i, j, cells[k]);
                k += 1;
                j += 1;
            }
            assert((i + 1) * w == i * w + w) by (nonlinear_arith);
            i += 1;
        }
        assert(l@ =~~= grid_of(cells@, w as int, h as int));
        Ok(l)
    }

    /// A board of `w` by `h` cells, each alive or dead by an independent draw,
    /// the draws laid out row by row as `from_cells` does; fails when `h` is
    /// under two.
    pub fn new_random(w: u32, h: u32) -> (r: Result<Life, LifeError>)
        requires
            h < 2 || fits(w, h),
        ensures
            r is Err <==> h < 2,
            r is Err ==> r == Err::<Life, LifeError>(LifeError::HeightTooSmall),
            r matches Ok(l) ==> l.wf() && is_grid(l@, w as int, h as int),
    {
        assert(w * h <= u64::MAX) by (nonlinear_arith)
            requires
                w <= u32::MAX,
                h <= u32::MAX,
        ;
        let n: u64 = w as u64 * h as u64;
        let mut rng = rand::thread_rng();
        let mut cells: Vec<u8> = Vec::new();
        let mut k: u64 = 0;
        while k < n
            invariant
                k <= n,
                n == w * h,
                cells@.len() == k,
                forall|i: int| 0 <= i < cells@.len() ==> #[trigger] cells@[i] <= 1,
            decreases n - k,
        {
            cells.push(random_cell(&mut rng));
            k += 1;
        }
        Life::from_cells(w, h, &cells)
    }

    /// The cell at the top left corner.
    pub fn value(&self) -> (v: u8)
        requires
            self.wf(),
            self@.len() > 0,
            self@[0].len() > 0,
        ensures
            v == self@[0][0],
    {
        self.current.index(self.size, 0, 0)
    }

    /// The cell at `(row, col)`: 1 if alive, 0 if dead.
    pub fn get(&self, row: u32, col: u32) -> (v: u8)
        requires
            self.wf(),
            row < self@.len(),
            col < self@[row as int].len(),
        ensures
            v == self@[row as int][col as int],
    {
        self.current.index(self.size, row, col)
    }

    /// Makes the cell at `(row, col)` alive (1) or dead (0).
    pub fn set(&mut self, row: u32, col: u32, v: u8)
        requires
            old(self).wf(),
            row < old(self)@.len(),
            col < old(self)@[row as int].len(),
            v <= 1,
        ensures
            final(self).wf(),
            final(self)@ == old(self)@.update(
                row as int,
                old(self)@[row as int].update(col as int, v),
            ),
    {
        let s = self.size;
        self.current.index_set(s, row, col, v);
        assert(self@ =~~= old(self)@.update(row as int, old(self)@[row as int].update(col as int, v)));
    }

    /// Number of rows.
    pub fn height(&self) -> (h: u32)
        requires
            self.wf(),
        ensures
            h == self@.len(),
            h >= 2,
    {
        self.size.h
    }

    /// Number of cells in a row; every row has that many, each 0 or 1.
    pub fn width(&self) -> (w: u32)
        requires
            self.wf(),
        ensures
            is_grid(self@, w as int, self@.len() as int),
    {
        self.size.w
    }
}

} // verus!
