//! The zig-zag traversal order over a block, and a traversal adapter.
//!
//! The order is the classic alternating diagonal sweep used by transform
//! coders: starting at the top-left slot, diagonals of constant `row + col`
//! are walked in alternating directions, ending at the bottom-right slot.

use vstd::prelude::*;

use crate::block::Block;
use crate::event::EventCoordless;
use crate::{BLOCK_AREA, BLOCK_SIZE_BIG};

verus! {

/// Row of a row-major slot index.
pub open spec fn slot_row(s: int) -> int {
    s / 64
}

/// Column of a row-major slot index.
pub open spec fn slot_col(s: int) -> int {
    s % 64
}

/// Anti-diagonal (row + col) of a row-major slot index.
pub open spec fn slot_diag(s: int) -> int {
    s / 64 + s % 64
}

/// Number of slots on anti-diagonal `d` of a 64 x 64 block.
pub open spec fn diag_len(d: int) -> int {
    if d < 64 {
        d + 1
    } else {
        127 - d
    }
}

/// Number of slots on anti-diagonals strictly below `d`.
pub open spec fn count_below_diag(d: int) -> int
    decreases d,
{
    if d <= 0 {
        0
    } else {
        count_below_diag(d - 1) + diag_len(d - 1)
    }
}

proof fn lemma_count_below_diag_low(d: int)
    requires
        0 <= d <= 64,
    ensures
        count_below_diag(d) * 2 == d * (d + 1),
    decreases d,
{
    if d > 0 {
        lemma_count_below_diag_low(d - 1);
        assert(count_below_diag(d) == count_below_diag(d - 1) + diag_len(d - 1));
        assert(diag_len(d - 1) == d);
        assert((d - 1) * d + 2 * d == d * (d + 1)) by (nonlinear_arith);
    } else {
        assert(count_below_diag(0) == 0);
    }
}

proof fn lemma_count_below_diag_high(d: int)
    requires
        64 <= d <= 127,
    ensures
        count_below_diag(d) * 2 == 8192 - (127 - d) * (128 - d),
    decreases d,
{
    if d == 64 {
        lemma_count_below_diag_low(64);
    } else {
        lemma_count_below_diag_high(d - 1);
        assert((128 - d) * (129 - d) - 2 * (128 - d) == (128 - d) * (127 - d))
            by (nonlinear_arith);
    }
}

proof fn lemma_count_below_diag_mono(d1: int, d2: int)
    requires
        0 <= d1 <= d2 <= 127,
    ensures
        count_below_diag(d1) <= count_below_diag(d2),
    decreases d2 - d1,
{
    if d1 < d2 {
        lemma_count_below_diag_mono(d1, d2 - 1);
    }
}

/// Row-major encoding of an in-bounds (row, col) pair, and its decoding.
proof fn lemma_slot_encode(y: int, x: int)
    requires
        0 <= y < 64,
        0 <= x < 64,
    ensures
        0 <= y * 64 + x < 4096,
        slot_row(y * 64 + x) == y,
        slot_col(y * 64 + x) == x,
{
    assert(0 <= y * 64 + x < 4096 && (y * 64 + x) / 64 == y && (y * 64 + x) % 64 == x)
        by (nonlinear_arith)
        requires
            0 <= y < 64,
            0 <= x < 64,
    ;
}

/// Decomposition of an in-bounds slot index into its row and column.
proof fn lemma_slot_decode(s: int)
    requires
        0 <= s < 4096,
    ensures
        0 <= slot_row(s) < 64,
        0 <= slot_col(s) < 64,
        s == slot_row(s) * 64 + slot_col(s),
{
    assert(0 <= s / 64 < 64 && 0 <= s % 64 < 64 && s == (s / 64) * 64 + s % 64)
        by (nonlinear_arith)
        requires
            0 <= s < 4096,
    ;
}

/// The slots the sweep has already emitted, relative to the cursor: all slots
/// on earlier diagonals, plus those on the cursor's diagonal that lie behind
/// it in the current direction (`up` sweeps toward smaller rows).
pub open spec fn before_cursor(s: int, y: int, x: int, up: bool) -> bool {
    ||| slot_diag(s) < y + x
    ||| (slot_diag(s) == y + x && (if up {
        slot_row(s) > y
    } else {
        slot_row(s) < y
    }))
}

/// How many slots of the cursor's own diagonal lie behind the cursor.
pub open spec fn emitted_on_diag(y: int, x: int, up: bool) -> int {
    if up {
        (if y + x < 64 {
            y + x
        } else {
            63
        }) - y
    } else {
        y - (if y + x < 64 {
            0
        } else {
            y + x - 63
        })
    }
}

/// Whether slot `s` occurs somewhere in the order table.
pub open spec fn contains_slot(order: Seq<u16>, s: int) -> bool {
    exists|k: int| 0 <= k < order.len() && (#[trigger] order[k]) as int == s
}

/// The position at which the sweep visits slot `s`: all slots on earlier
/// anti-diagonals come first, then the slots ahead of `s` on its own
/// diagonal — even diagonals are swept toward smaller rows, odd ones toward
/// larger. This closed form pins the whole permutation.
pub open spec fn zigzag_rank(s: int) -> int {
    count_below_diag(slot_diag(s)) + emitted_on_diag(
        slot_row(s),
        slot_col(s),
        slot_diag(s) % 2 == 0,
    )
}

/// A table of `BLOCK_AREA` slot indices, each in range; what a traversal
/// needs of an order table.
pub open spec fn zigzag_order_wf(order: Seq<u16>) -> bool {
    &&& order.len() == BLOCK_AREA
    &&& forall|k: int| 0 <= k < order.len() ==> (order[k] as int) < BLOCK_AREA
}

/// Generates the zig-zag traversal order: position `k` of the result names
/// the row-major slot visited `k`-th. Every slot stands at its
/// [`zigzag_rank`], which fixes the table completely; in particular it is a
/// bijection on `[0, BLOCK_AREA)` — entries in range, pairwise distinct,
/// every slot present — starting at the top-left slot and ending at the
/// bottom-right one.
pub fn gen_zigzag_order() -> (order: Vec<u16>)
    ensures
        zigzag_order_wf(order@),
        forall|k1: int, k2: int| 0 <= k1 < k2 < BLOCK_AREA ==> order@[k1] != order@[k2],
        forall|s: int|
            0 <= s < BLOCK_AREA ==> 0 <= #[trigger] zigzag_rank(s) < BLOCK_AREA && order@[
                zigzag_rank(s)
            ] as int == s,
        forall|s: int| 0 <= s < BLOCK_AREA ==> #[trigger] contains_slot(order@, s),
        order@[0] == 0,
        order@[BLOCK_AREA - 1] as int == BLOCK_AREA - 1,
{
    let mut order: Vec<u16> = Vec::new();
    let mut idx: usize = 0;
    let mut up: bool = true;
    let mut y: usize = 0;
    let mut x: usize = 0;

    while idx < BLOCK_AREA
        invariant
            order@.len() == idx,
            idx <= BLOCK_AREA,
            y < 64,
            x < 64,
            forall|k: int| 0 <= k < idx ==> (order@[k] as int) < 4096,
            forall|k1: int, k2: int| 0 <= k1 < k2 < idx ==> order@[k1] != order@[k2],
            idx < BLOCK_AREA ==> idx == count_below_diag(y + x) + emitted_on_diag(
                y as int,
                x as int,
                up,
            ),
            idx < BLOCK_AREA ==> (up <==> (y + x) % 2 == 0),
            idx < BLOCK_AREA ==> forall|k: int|
                0 <= k < idx ==> before_cursor(#[trigger] order@[k] as int, y as int, x as int, up),
            idx < BLOCK_AREA ==> forall|s: int|
                0 <= s < 4096 && before_cursor(s, y as int, x as int, up) ==> 0 <= #[trigger] zigzag_rank(
                    s,
                ) < idx && order@[zigzag_rank(s)] as int == s,
            idx == BLOCK_AREA ==> forall|s: int|
                0 <= s < 4096 ==> 0 <= #[trigger] zigzag_rank(s) < BLOCK_AREA && order@[
                    zigzag_rank(s)
                ] as int == s,
            idx >= 1 ==> order@[0] == 0,
            idx == BLOCK_AREA ==> order@[idx - 1] as int == 4095,
        decreases BLOCK_AREA - idx,
    {
        let ghost y0 = y as int;
        let ghost x0 = x as int;
        let ghost up0 = up;
        let ghost idx0 = idx as int;
        let ghost prev = order@;

        let slot: usize = y * BLOCK_SIZE_BIG + x;
        proof {
            lemma_slot_encode(y0, x0);
            // The cursor's own slot is not behind the cursor, so it differs
            // from everything already emitted.
            assert(!before_cursor(slot as int, y0, x0, up0));
        }
        order.push(slot as u16);
        idx = idx + 1;

        proof {
            // The emission position is exactly the slot's zig-zag rank.
            assert(zigzag_rank(slot as int) == idx0);
            if idx0 == 0 {
                // The very first emitted slot is the top-left one.
                assert(emitted_on_diag(y0, x0, up0) >= 0);
                if y0 + x0 > 0 {
                    assert(count_below_diag(1) == count_below_diag(0) + diag_len(0));
                    lemma_count_below_diag_mono(1, y0 + x0);
                    assert(false);
                }
                assert(y0 == 0 && x0 == 0);
            }
        }

        if idx < BLOCK_AREA {
            if up {
                if x == BLOCK_SIZE_BIG - 1 {
                    proof {
                        // At (63, 63) the sweep would already be complete.
                        if y0 == 63 {
                            lemma_count_below_diag_high(126);
                            assert(false);
                        }
                    }
                    y = y + 1;
                    up = false;
                } else if y == 0 {
                    x = x + 1;
                    up = false;
                } else {
                    x = x + 1;
                    y = y - 1;
                }
            } else {
                if y == BLOCK_SIZE_BIG - 1 {
                    proof {
                        if x0 == 63 {
                            lemma_count_below_diag_high(126);
                            assert(false);
                        }
                    }
                    x = x + 1;
                    up = true;
                } else if x == 0 {
                    y = y + 1;
                    up = true;
                } else {
                    x = x - 1;
                    y = y + 1;
                }
            }
            proof {
                let y1 = y as int;
                let x1 = x as int;
                let up1 = up;
                assert(count_below_diag(y0 + x0 + 1) == count_below_diag(y0 + x0) + diag_len(
                    y0 + x0,
                ));
                assert(idx == count_below_diag(y1 + x1) + emitted_on_diag(y1, x1, up1));
                assert forall|k: int| 0 <= k < idx implies before_cursor(
                    #[trigger] order@[k] as int,
                    y1,
                    x1,
                    up1,
                ) by {
                    if k < idx0 {
                        assert(before_cursor(prev[k] as int, y0, x0, up0));
                        lemma_slot_decode(prev[k] as int);
                    } else {
                        lemma_slot_decode(slot as int);
                    }
                }
                assert forall|s: int|
                    0 <= s < 4096 && before_cursor(s, y1, x1, up1) implies 0 <= zigzag_rank(s)
                    < idx && order@[zigzag_rank(s)] as int == s by {
                    lemma_slot_decode(s);
                    if before_cursor(s, y0, x0, up0) {
                        assert(0 <= zigzag_rank(s) < idx0 && prev[zigzag_rank(s)] as int == s);
                        assert(order@[zigzag_rank(s)] as int == s);
                    } else {
                        // The only newly uncovered slot is the one just emitted.
                        assert(s == slot as int);
                        assert(zigzag_rank(s) == idx0);
                        assert(order@[idx0] as int == s);
                    }
                }
            }
        } else {
            proof {
                // The loop ends exactly at the bottom-right slot: any earlier
                // cursor position accounts for fewer than BLOCK_AREA - 1
                // emitted slots.
                let d0 = y0 + x0;
                lemma_count_below_diag_high(126);
                if d0 < 126 {
                    lemma_count_below_diag_mono(d0 + 1, 126);
                    assert(count_below_diag(d0 + 1) == count_below_diag(d0) + diag_len(d0));
                    assert(emitted_on_diag(y0, x0, up0) < diag_len(d0));
                    assert(false);
                }
                assert(y0 == 63 && x0 == 63);
                assert(slot as int == 4095);
                assert forall|s: int| 0 <= s < 4096 implies 0 <= #[trigger] zigzag_rank(s) < 4096
                    && order@[zigzag_rank(s)] as int == s by {
                    lemma_slot_decode(s);
                    if s == 4095 {
                        assert(zigzag_rank(s) == idx0);
                        assert(order@[idx0] as int == s);
                    } else {
                        assert(before_cursor(s, y0, x0, up0));
                        assert(0 <= zigzag_rank(s) < idx0 && prev[zigzag_rank(s)] as int == s);
                        assert(order@[zigzag_rank(s)] as int == s);
                    }
                }
            }
        }
    }
    proof {
        assert forall|s: int| 0 <= s < BLOCK_AREA implies #[trigger] contains_slot(
            order@,
            s,
        ) by {
            assert(order@[zigzag_rank(s)] as int == s);
        }
    }
    order
}

/// Any two tables of the right length that place every slot at its zig-zag
/// rank are equal: the generated order is the unique such table, so every
/// generation returns the identical permutation.
pub proof fn lemma_zigzag_order_unique(a: Seq<u16>, b: Seq<u16>)
    requires
        zigzag_order_wf(a),
        forall|k1: int, k2: int| 0 <= k1 < k2 < BLOCK_AREA ==> a[k1] != a[k2],
        forall|s: int|
            0 <= s < BLOCK_AREA ==> 0 <= #[trigger] zigzag_rank(s) < BLOCK_AREA && a[
                zigzag_rank(s)
            ] as int == s,
        b.len() == BLOCK_AREA,
        forall|s: int|
            0 <= s < BLOCK_AREA ==> 0 <= #[trigger] zigzag_rank(s) < BLOCK_AREA && b[
                zigzag_rank(s)
            ] as int == s,
    ensures
        a == b,
{
    assert forall|k: int| 0 <= k < BLOCK_AREA implies a[k] == b[k] by {
        let s = a[k] as int;
        assert(0 <= s < BLOCK_AREA);
        assert(a[zigzag_rank(s)] as int == s);
        // The entries of `a` are pairwise distinct, so the slot found at
        // position k can stand nowhere else: k is its rank.
        assert(zigzag_rank(s) == k);
        assert(b[k] as int == s);
    }
    assert(a =~= b);
}

/// Lazy zig-zag traversal over one block: step `k` yields the contents of
/// slot `order[k]`, an event payload or its absence. The block itself is
/// never mutated.
pub struct ZigZag<'a> {
    pub block: &'a Block,
    pub order: &'a Vec<u16>,
    pub idx: usize,
}

impl<'a> ZigZag<'a> {
    /// The traversal can run: the block is well formed, the order table has
    /// one in-range entry per slot, and the cursor is within bounds.
    pub open spec fn wf(self) -> bool {
        &&& self.block.wf()
        &&& zigzag_order_wf(self.order@)
        &&& self.idx <= BLOCK_AREA
    }

    /// Starts a traversal of `block` following `order`.
    pub fn new(block: &'a Block, order: &'a Vec<u16>) -> (z: ZigZag<'a>)
        requires
            block.wf(),
            zigzag_order_wf(order@),
        ensures
            z.wf(),
            z.block == block,
            z.order == order,
            z.idx == 0,
    {
        ZigZag { block, order, idx: 0 }
    }

    /// Yields the contents of the next slot in zig-zag order, or `None` once
    /// all `BLOCK_AREA` slots have been visited.
    pub fn next(&mut self) -> (r: Option<Option<EventCoordless>>)
        requires
            old(self).wf(),
        ensures
            final(self).wf(),
            final(self).block == old(self).block,
            final(self).order == old(self).order,
            old(self).idx < BLOCK_AREA ==> {
                &&& final(self).idx == old(self).idx + 1
                &&& r == Some(old(self).block.events@[old(self).order@[old(self).idx as int] as int])
            },
            old(self).idx >= BLOCK_AREA ==> r is None && final(self).idx == old(self).idx,
    {
        if self.idx < BLOCK_AREA {
            let slot = self.order[self.idx] as usize;
            self.idx = self.idx + 1;
            Some(self.block.events[slot])
        } else {
            None
        }
    }
}

} // verus!
