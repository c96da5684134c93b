//! Grid geometry and the padded byte buffer that stores one board.
//!
//! A row holds `line_width * 64` cells (the last lane may run past the
//! logical width: those are shadow cells) between two sentinel bytes, so a
//! row's stride is `line_width * 64 + 2`. Cell `(y, x)` lives at byte
//! `x + 1 + y * stride`; column -1 and column `line_width * 64` are the
//! sentinels.
use vstd::prelude::*;

use crate::lane::{Lane, LANE_WIDTH};

verus! {

/// Logical width and height of a grid, and the lanes that cover a row.
#[derive(Copy, Clone)]
pub struct BoardSize {
    pub(crate) w: u32,
    pub(crate) h: u32,
    pub(crate) line_width: u32,
}

/// Whether a grid of `w` by `h` cells can be addressed with 32-bit offsets.
pub open spec fn fits(w: u32, h: u32) -> bool {
    ((w as int + 63) / 64 * 64 + 2) * h <= u32::MAX
}

impl BoardSize {
    /// Cells per row, shadow cells included.
    pub(crate) open spec fn span(self) -> int {
        self.line_width * 64
    }

    /// Bytes per row: the cells and the two sentinels.
    pub(crate) open spec fn stride(self) -> int {
        self.span() + 2
    }

    pub(crate) open spec fn wf(self) -> bool {
        &&& self.w <= self.span() < self.w + 64
        &&& self.h >= 1
        &&& self.stride() <= self.stride() * self.h <= u32::MAX
    }

    /// Byte offset of cell `(r, c)`.
    pub(crate) open spec fn pos(self, r: int, c: int) -> int {
        c + 1 + r * self.stride()
    }

    pub(crate) fn new(w: u32, h: u32) -> (s: BoardSize)
        requires
            h >= 1,
            fits(w, h),
        ensures
            s.w == w,
            s.h == h,
            s.wf(),
    {
        let line_width = ((w as u64 + (LANE_WIDTH as u64 - 1)) / LANE_WIDTH as u64) as u32;
        let s = BoardSize { w, h, line_width };
        assert(s.stride() <= s.stride() * s.h) by (nonlinear_arith)
            requires
                s.h >= 1,
                s.stride() >= 0,
        ;
        s
    }
}

/// Cell `(r, c)` lies inside the buffer.
proof fn lemma_pos(s: BoardSize, r: int, c: int)
    requires
        s.wf(),
        0 <= r < s.h,
        -1 <= c <= s.span(),
    ensures
        0 <= s.pos(r, c) < s.stride() * s.h,
{
    let st = s.stride();
    assert(r * st + st <= s.h * st) by (nonlinear_arith)
        requires
            r < s.h,
            st >= 0,
    ;
    assert(0 <= r * st) by (nonlinear_arith)
        requires
            r >= 0,
            st >= 0,
    ;
}

/// Cell `(r, c)` lies in the run of `n` bytes that starts at cell `(y, x)`
/// exactly when it is one of the cells `(y, x) .. (y, x + n - 1)`.
proof fn lemma_pos_window(s: BoardSize, r: int, c: int, y: int, x: int, n: int)
    requires
        s.wf(),
        0 <= r < s.h,
        -1 <= c <= s.span(),
        0 <= y < s.h,
        -1 <= x,
        0 <= n,
        x + n <= s.span() + 1,
    ensures
        (s.pos(y, x) <= s.pos(r, c) < s.pos(y, x) + n) <==> (r == y && x <= c < x + n),
{
    let st = s.stride();
    if r < y {
        assert(r * st + st <= y * st) by (nonlinear_arith)
            requires
                r < y,
                st >= 0,
        ;
    } else if r > y {
        assert(y * st + st <= r * st) by (nonlinear_arith)
            requires
                r > y,
                st >= 0,
        ;
    }
}

/// One board: a row-major buffer of bytes, one per cell, with sentinels.
pub struct Board(Vec<u8>);

impl Board {
    /// The byte of cell `(r, c)`.
    pub(crate) closed spec fn cell(&self, s: BoardSize, r: int, c: int) -> int {
        self.0@[s.pos(r, c)] as int
    }

    pub(crate) closed spec fn sized(&self, s: BoardSize) -> bool {
        self.0@.len() == s.stride() * s.h
    }

    /// Sized for `s`, with every sentinel dead.
    pub(crate) open spec fn wf(&self, s: BoardSize) -> bool {
        &&& self.sized(s)
        &&& forall|r: int|
            0 <= r < s.h ==> #[trigger] self.cell(s, r, -1) == 0 && self.cell(s, r, s.span()) == 0
    }

    /// A board of dead cells.
    pub(crate) fn new(s: BoardSize) -> (b: Board)
        requires
            s.wf(),
        ensures
            b.wf(s),
            forall|r: int, c: int|
                0 <= r < s.h && -1 <= c <= s.span() ==> #[trigger] b.cell(s, r, c) == 0,
    {
        let b = Board(vec![0; ((s.line_width * LANE_WIDTH + 2) * s.h) as usize]);
        assert forall|r: int, c: int| 0 <= r < s.h && -1 <= c <= s.span() implies #[trigger] b.cell(
            s,
            r,
            c,
        ) == 0 by {
            lemma_pos(s, r, c);
        }
        b
    }

    /// The byte of cell `(y, x)`.
    #[inline]
    pub(crate) fn index(&self, s: BoardSize, y: u32, x: u32) -> (v: u8)
        requires
            s.wf(),
            self.sized(s),
            y < s.h,
            x < s.w,
        ensures
            v == self.cell(s, y as int, x as int),
    {
        proof {
            lemma_pos(s, y as int, x as int);
        }
        self.0[(x + 1 + y * (s.line_width * LANE_WIDTH + 2)) as usize]
    }

    /// Writes `v` into cell `(y, x)` and nothing else.
    #[inline]
    pub(crate) fn index_set(&mut self, s: BoardSize, y: u32, x: u32, v: u8)
        requires
            s.wf(),
            old(self).wf(s),
            y < s.h,
            x < s.w,
        ensures
            final(self).wf(s),
            forall|r: int, c: int|
                0 <= r < s.h && -1 <= c <= s.span() ==> #[trigger] final(self).cell(s, r, c) == if r
                    == y && c == x {
                    v as int
                } else {
                    old(self).cell(s, r, c)
                },
    {
        proof {
            lemma_pos(s, y as int, x as int);
        }
        let i = (x + 1 + y * (s.line_width * LANE_WIDTH + 2)) as usize;
        self.0.set(i, v);
        assert forall|r: int, c: int| 0 <= r < s.h && -1 <= c <= s.span() implies #[trigger] self.cell(
            s,
            r,
            c,
        ) == if r == y && c == x {
            v as int
        } else {
            old(self).cell(s, r, c)
        } by {
            lemma_pos(s, r, c);
            lemma_pos_window(s, r, c, y as int, x as int, 1);
        }
    }

    /// The 64 bytes from `start`.
    fn read_lane(&self, start: usize) -> (l: Lane)
        requires
            start + 64 <= self.0@.len() <= u32::MAX,
        ensures
            forall|k: int| 0 <= k < 64 ==> #[trigger] l@[k] == self.0@[start + k],
    {
        let mut l: Lane = [0u8; 64];
        let mut k: usize = 0;
        while k < 64
            invariant
                k <= 64,
                start + 64 <= self.0@.len() <= u32::MAX,
                forall|i: int| 0 <= i < k ==> #[trigger] l@[i] == self.0@[start + i],
            decreases 64 - k,
        {
            l[k] = self.0[start + k];
            k += 1;
        }
        l
    }

    /// The cells `(y, x) .. (y, x + 63)`.
    #[inline]
    pub(crate) fn block_get(&self, s: BoardSize, y: u32, x: u32) -> (l: Lane)
        requires
            s.wf(),
            self.sized(s),
            y < s.h,
            x + 64 <= s.span(),
        ensures
            forall|k: int| 0 <= k < 64 ==> #[trigger] l@[k] == self.cell(s, y as int, x + k),
    {
        proof {
            lemma_pos(s, y as int, x + 63);
        }
        self.read_lane((x + 1 + y * (s.line_width * LANE_WIDTH + 2)) as usize)
    }

    /// The cells `(y, x - 1) .. (y, x + 62)`: the left neighbours of a block.
    #[inline]
    pub(crate) fn block_get_prev(&self, s: BoardSize, y: u32, x: u32) -> (l: Lane)
        requires
            s.wf(),
            self.sized(s),
            y < s.h,
            x + 64 <= s.span(),
        ensures
            forall|k: int| 0 <= k < 64 ==> #[trigger] l@[k] == self.cell(s, y as int, x + k - 1),
    {
        proof {
            lemma_pos(s, y as int, x + 63);
        }
        self.read_lane((x + y * (s.line_width * LANE_WIDTH + 2)) as usize)
    }

    /// The cells `(y, x + 1) .. (y, x + 64)`: the right neighbours of a block.
    #[inline]
    pub(crate) fn block_get_next(&self, s: BoardSize, y: u32, x: u32) -> (l: Lane)
        requires
            s.wf(),
            self.sized(s),
            y < s.h,
            x + 64 <= s.span(),
        ensures
            forall|k: int| 0 <= k < 64 ==> #[trigger] l@[k] == self.cell(s, y as int, x + k + 1),
    {
        proof {
            lemma_pos(s, y as int, x + 64);
        }
        self.read_lane((x + 2 + y * (s.line_width * LANE_WIDTH + 2)) as usize)
    }

    /// Writes `v` into the cells `(y, x) .. (y, x + 63)` and nothing else.
    #[inline]
    pub(crate) fn block_set(&mut self, s: BoardSize, y: u32, x: u32, v: &Lane)
        requires
            s.wf(),
            old(self).wf(s),
            y < s.h,
            x + 64 <= s.span(),
        ensures
            final(self).wf(s),
            forall|r: int, c: int|
                0 <= r < s.h && -1 <= c <= s.span() ==> #[trigger] final(self).cell(s, r, c) == if r
                    == y && x <= c < x + 64 {
                    v@[c - x] as int
                } else {
                    old(self).cell(s, r, c)
                },
    {
        proof {
            lemma_pos(s, y as int, x + 63);
        }
        let start = (x + 1 + y * (s.line_width * LANE_WIDTH + 2)) as usize;
        let mut k: usize = 0;
        while k < 64
            invariant
                k <= 64,
                start + 64 <= self.0@.len() <= u32::MAX,
                self.0@.len() == old(self).0@.len(),
                forall|i: int|
                    0 <= i < self.0@.len() ==> #[trigger] self.0@[i] == if start <= i < start + k {
                        v@[i - start]
                    } else {
                        old(self).0@[i]
                    },
            decreases 64 - k,
        {
            self.0.set(start + k, v[k]);
            k += 1;
        }
        assert forall|r: int, c: int| 0 <= r < s.h && -1 <= c <= s.span() implies #[trigger] self.cell(
            s,
            r,
            c,
        ) == if r == y && x <= c < x + 64 {
            v@[c - x] as int
        } else {
            old(self).cell(s, r, c)
        } by {
            lemma_pos(s, r, c);
            lemma_pos_window(s, r, c, y as int, x as int, 64);
        }
    }
}

} // verus!
