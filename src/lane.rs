//! Elementwise operations on fixed-width lanes of cells.
use vstd::prelude::*;

use crate::rules::rule;

verus! {

/// Number of cells handled together by one lane operation.
pub const LANE_WIDTH: u32 = 64;

/// One lane's worth of contiguous cells.
pub type Lane = [u8; 64];

/// Elementwise sum of two lanes.
pub fn lane_sum(a: &Lane, b: &Lane) -> (r: Lane)
    requires
        forall|k: int| 0 <= k < 64 ==> a@[k] + b@[k] <= 255,
    ensures
        forall|k: int| 0 <= k < 64 ==> #[trigger] r@[k] == a@[k] + b@[k],
{
    let mut r: Lane = [0u8; 64];
    let mut k: usize = 0;
    while k < 64
        invariant
            k <= 64,
            forall|i: int| 0 <= i < 64 ==> a@[i] + b@[i] <= 255,
            forall|i: int| 0 <= i < k ==> #[trigger] r@[i] == a@[i] + b@[i],
        decreases 64 - k,
    {
        r[k] = a[k] + b[k];
        k += 1;
    }
    r
}

/// With `n` the neighbour count and `c` the cell itself (0 or 1), the
/// branch-free test `(n | c) == 3` is the rule of life.
proof fn lemma_rule_bits(n: u8, c: u8)
    by (bit_vector)
    requires
        n <= 8,
        c <= 1,
    ensures
        ((n | c) == 3) == (n == 3 || (n == 2 && c == 1)),
{
}

/// Applies the rule to a lane: `total` holds each cell's 3x3 sum (itself
/// included) and `cur` the cells. Only the first `live` cells are real; the
/// rest come out dead.
pub fn lane_rule(total: &Lane, cur: &Lane, live: usize) -> (r: Lane)
    requires
        forall|k: int| 0 <= k < 64 ==> cur@[k] <= 1 && cur@[k] <= total@[k] <= cur@[k] + 8,
    ensures
        forall|k: int|
            0 <= k < 64 ==> #[trigger] r@[k] == if k < live {
                rule(cur@[k] as int, total@[k] - cur@[k])
            } else {
                0
            },
{
    let mut r: Lane = [0u8; 64];
    let mut k: usize = 0;
    while k < 64
        invariant
            k <= 64,
            forall|i: int| 0 <= i < 64 ==> cur@[i] <= 1 && cur@[i] <= total@[i] <= cur@[i] + 8,
            forall|i: int|
                0 <= i < k ==> #[trigger] r@[i] == if i < live {
                    rule(cur@[i] as int, total@[i] - cur@[i])
                } else {
                    0
                },
            forall|i: int| k <= i < 64 ==> #[trigger] r@[i] == 0,
        decreases 64 - k,
    {
        let c = cur[k];
        let n = total[k] - c;
        proof {
            lemma_rule_bits(n, c);
        }
        if k < live && (n | c) == 3 {
            r[k] = 1;
        }
        k += 1;
    }
    r
}

} // verus!
