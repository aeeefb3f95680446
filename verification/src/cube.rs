//! Per-tile, per-channel block sequences with per-pixel routing.
//!
//! A [`Cube`] owns one growable sequence of [`Block`]s per color channel.
//! For every pixel slot, an index map records which block of that sequence is
//! currently accepting the pixel's next event, so each pixel advances through
//! block generations at its own event rate without any scanning.

use vstd::prelude::*;

use crate::block::{empty_events, Block, BlockError};
use crate::event::{Event, EventCoordless};
use crate::{BLOCK_AREA, BLOCK_SIZE_BIG};

verus! {

/// Invariant of one channel's state: at least one block, every block well
/// formed, one index-map entry per slot, each entry at most the sequence
/// length, and block `k` holds an event for slot `i` exactly when
/// `k < map[i]` — events for a slot fill a prefix of the block sequence.
pub open spec fn channel_wf(blocks: Seq<Block>, map: Seq<usize>) -> bool {
    &&& blocks.len() >= 1
    &&& map.len() == BLOCK_AREA
    &&& (forall|k: int| 0 <= k < blocks.len() ==> (#[trigger] blocks[k]).wf())
    &&& (forall|i: int| 0 <= i < map.len() ==> (#[trigger] map[i]) as int <= blocks.len())
    &&& (forall|k: int, i: int|
        0 <= k < blocks.len() && 0 <= i < BLOCK_AREA ==> ((#[trigger] blocks[k].events@[i])
            is Some <==> k < map[i] as int))
}

/// A channel's state right after construction: one empty block, all index-map
/// entries zero.
pub open spec fn channel_fresh(blocks: Seq<Block>, map: Seq<usize>) -> bool {
    &&& blocks.len() == 1
    &&& blocks[0].events@ == empty_events()
    &&& blocks[0].fill_count == 0
    &&& map.len() == BLOCK_AREA
    &&& (forall|i: int| 0 <= i < BLOCK_AREA ==> (#[trigger] map[i]) == 0)
}

/// How one successful event write changes a channel: the slot's map entry
/// advances by one; if it already pointed past the last block, exactly one
/// fresh block is appended; the targeted block gains the event's payload at
/// the slot and one fill count; nothing else changes.
pub open spec fn channel_set_post(
    old_blocks: Seq<Block>,
    old_map: Seq<usize>,
    new_blocks: Seq<Block>,
    new_map: Seq<usize>,
    event: Event,
    idx: int,
) -> bool {
    let cur = old_map[idx] as int;
    let grow = cur == old_blocks.len();
    let payload = EventCoordless { d: event.d, delta_t: event.delta_t };
    &&& new_map.len() == old_map.len()
    &&& new_map[idx] as int == cur + 1
    &&& (forall|j: int| 0 <= j < old_map.len() && j != idx ==> new_map[j] == old_map[j])
    &&& new_blocks.len() == old_blocks.len() + (if grow {
        1int
    } else {
        0int
    })
    &&& (forall|k: int| 0 <= k < old_blocks.len() && k != cur ==> new_blocks[k] == old_blocks[k])
    &&& new_blocks[cur].events@ == (if grow {
        empty_events()
    } else {
        old_blocks[cur].events@
    }).update(idx, Some(payload))
    &&& new_blocks[cur].fill_count as int == (if grow {
        0int
    } else {
        old_blocks[cur].fill_count as int
    }) + 1
}

/// Routes one event into a channel's current block for slot `idx`, appending
/// a fresh block first when every existing block already holds an event for
/// that slot. The write always succeeds: the index map never points at a
/// block already filled for its slot.
pub fn set_event_for_channel(
    block_vec: &mut Vec<Block>,
    block_idx_map: &mut Vec<usize>,
    event: Event,
    idx: usize,
) -> (res: Result<(), BlockError>)
    requires
        channel_wf(old(block_vec)@, old(block_idx_map)@),
        idx < BLOCK_AREA,
    ensures
        res == Ok::<(), BlockError>(()),
        channel_wf(final(block_vec)@, final(block_idx_map)@),
        channel_set_post(
            old(block_vec)@,
            old(block_idx_map)@,
            final(block_vec)@,
            final(block_idx_map)@,
            event,
            idx as int,
        ),
{
    let ghost old_blocks = block_vec@;
    let ghost old_map = block_idx_map@;
    if block_idx_map[idx] >= block_vec.len() {
        block_vec.push(Block::new());
    }
    let ghost mid_blocks = block_vec@;
    let cur = block_idx_map[idx];
    proof {
        assert(block_vec@[cur as int].events@[idx as int] is None);
    }
    let slot_block = &mut block_vec[cur];
    let r = slot_block.set_event(&event, idx);
    match r {
        Ok(_) => {
            let len_now = block_vec.len();
            proof {
                assert(cur < len_now);
            }
            let next = cur + 1;
            block_idx_map.set(idx, next);
            proof {
                let nb = block_vec@;
                let nm = block_idx_map@;
                assert(nb[cur as int].events@ == mid_blocks[cur as int].events@.update(
                    idx as int,
                    Some(EventCoordless { d: event.d, delta_t: event.delta_t }),
                ));
                assert forall|k: int, i: int|
                    0 <= k < nb.len() && 0 <= i < BLOCK_AREA implies ((#[trigger] nb[k].events@[i])
                    is Some <==> k < nm[i] as int) by {
                    if k != cur as int {
                        assert(nb[k] == mid_blocks[k]);
                    }
                }
            }
            Ok(())
        },
        Err(e) => Err(e),
    }
}

/// All blocks of one spatial tile: three independent block sequences, one per
/// color channel, each with its per-pixel current-block index map.
pub struct Cube {
    pub blocks_r: Vec<Block>,
    pub blocks_g: Vec<Block>,
    pub blocks_b: Vec<Block>,
    pub cube_idx_y: usize,
    pub cube_idx_x: usize,
    pub cube_idx_c: usize,
    /// Per slot, the index of the block currently being written for that
    /// coordinate, one map per channel.
    pub block_idx_map_r: Vec<usize>,
    pub block_idx_map_g: Vec<usize>,
    pub block_idx_map_b: Vec<usize>,
}

impl Cube {
    /// The block sequence of channel `c` (0 = R, 1 = G, 2 = B).
    pub open spec fn spec_blocks(self, c: int) -> Seq<Block> {
        if c == 0 {
            self.blocks_r@
        } else if c == 1 {
            self.blocks_g@
        } else {
            self.blocks_b@
        }
    }

    /// The index map of channel `c`.
    pub open spec fn spec_map(self, c: int) -> Seq<usize> {
        if c == 0 {
            self.block_idx_map_r@
        } else if c == 1 {
            self.block_idx_map_g@
        } else {
            self.block_idx_map_b@
        }
    }

    /// Every channel satisfies the channel invariant.
    pub open spec fn wf(self) -> bool {
        &&& channel_wf(self.blocks_r@, self.block_idx_map_r@)
        &&& channel_wf(self.blocks_g@, self.block_idx_map_g@)
        &&& channel_wf(self.blocks_b@, self.block_idx_map_b@)
    }

    /// Row of the tile's first pixel.
    pub open spec fn tile_origin_y(self) -> int {
        self.cube_idx_y as int / (BLOCK_SIZE_BIG as int)
    }

    /// Column of the tile's first pixel.
    pub open spec fn tile_origin_x(self) -> int {
        self.cube_idx_x as int / (BLOCK_SIZE_BIG as int)
    }

    /// Whether the event's coordinate falls inside this cube's tile.
    pub open spec fn in_tile(self, event: Event) -> bool {
        &&& self.tile_origin_y() <= event.coord.y as int
        &&& (event.coord.y as int) < self.tile_origin_y() + BLOCK_SIZE_BIG
        &&& self.tile_origin_x() <= event.coord.x as int
        &&& (event.coord.x as int) < self.tile_origin_x() + BLOCK_SIZE_BIG
    }

    /// The intra-tile row-major slot index the event routes to.
    pub open spec fn spec_slot(self, event: Event) -> int {
        (event.coord.y as int - self.tile_origin_y()) * (BLOCK_SIZE_BIG as int) + (
        event.coord.x as int - self.tile_origin_x())
    }

    /// Creates the cube for one spatial tile: each channel seeded with one
    /// empty block and an all-zero index map.
    pub fn new(cube_idx_y: usize, cube_idx_x: usize, cube_idx_c: usize) -> (r: Cube)
        ensures
            r.wf(),
            r.cube_idx_y == cube_idx_y,
            r.cube_idx_x == cube_idx_x,
            r.cube_idx_c == cube_idx_c,
            channel_fresh(r.blocks_r@, r.block_idx_map_r@),
            channel_fresh(r.blocks_g@, r.block_idx_map_g@),
            channel_fresh(r.blocks_b@, r.block_idx_map_b@),
    {
        let mut blocks_r: Vec<Block> = Vec::new();
        blocks_r.push(Block::new());
        let mut blocks_g: Vec<Block> = Vec::new();
        blocks_g.push(Block::new());
        let mut blocks_b: Vec<Block> = Vec::new();
        blocks_b.push(Block::new());
        Cube {
            blocks_r,
            blocks_g,
            blocks_b,
            cube_idx_y,
            cube_idx_x,
            cube_idx_c,
            block_idx_map_r: zero_map(),
            block_idx_map_g: zero_map(),
            block_idx_map_b: zero_map(),
        }
    }

    /// Routes an in-tile event to its channel and slot. The write always
    /// succeeds; only the addressed channel changes, and it changes as
    /// [`channel_set_post`] describes.
    pub fn set_event(&mut self, event: Event) -> (res: Result<(), BlockError>)
        requires
            old(self).wf(),
            old(self).in_tile(event),
            event.coord.spec_channel() < 3,
        ensures
            res == Ok::<(), BlockError>(()),
            final(self).wf(),
            final(self).cube_idx_y == old(self).cube_idx_y,
            final(self).cube_idx_x == old(self).cube_idx_x,
            final(self).cube_idx_c == old(self).cube_idx_c,
            forall|c: int|
                0 <= c < 3 && c != event.coord.spec_channel() ==> final(self).spec_blocks(c)
                    == old(self).spec_blocks(c) && final(self).spec_map(c) == old(self).spec_map(
                    c,
                ),
            channel_set_post(
                old(self).spec_blocks(event.coord.spec_channel()),
                old(self).spec_map(event.coord.spec_channel()),
                final(self).spec_blocks(event.coord.spec_channel()),
                final(self).spec_map(event.coord.spec_channel()),
                event,
                old(self).spec_slot(event),
            ),
    {
        let (idx, c) = self.event_coord_to_block_idx(&event);
        match c {
            0 => set_event_for_channel(&mut self.blocks_r, &mut self.block_idx_map_r, event, idx),
            1 => set_event_for_channel(&mut self.blocks_g, &mut self.block_idx_map_g, event, idx),
            _ => set_event_for_channel(&mut self.blocks_b, &mut self.block_idx_map_b, event, idx),
        }
    }

    /// Translates an in-tile event coordinate to its row-major slot index and
    /// its color channel.
    pub fn event_coord_to_block_idx(&self, event: &Event) -> (r: (usize, usize))
        requires
            self.in_tile(*event),
        ensures
            r.0 as int == self.spec_slot(*event),
            r.0 < BLOCK_AREA,
            r.1 as int == event.coord.spec_channel(),
    {
        let idx_y = event.coord.y as usize - (self.cube_idx_y / BLOCK_SIZE_BIG);
        let idx_x = event.coord.x as usize - (self.cube_idx_x / BLOCK_SIZE_BIG);
        (idx_y * BLOCK_SIZE_BIG + idx_x, event.coord.channel() as usize)
    }
}

/// The state of channel 0 after a fresh cube has taken `k` events, all
/// addressed to slot `slot`: `k` blocks stand in the sequence (the single
/// seeded one while `k == 0`) and the slot's map entry is `k`.
pub open spec fn same_slot_history(c: Cube, slot: int, k: int) -> bool {
    &&& 0 <= slot < BLOCK_AREA
    &&& c.spec_blocks(0).len() == (if k == 0 {
        1int
    } else {
        k
    })
    &&& c.spec_map(0)[slot] as int == k
}

/// Cube growth, base case: a fresh cube has taken no events, so channel 0
/// holds its one seeded block and a zero map entry for every slot.
pub proof fn lemma_cube_growth_base(c: Cube, slot: int)
    requires
        channel_fresh(c.blocks_r@, c.block_idx_map_r@),
        0 <= slot < BLOCK_AREA,
    ensures
        same_slot_history(c, slot, 0),
{
}

/// Cube growth, step case: once a slot of channel 0 has taken `k >= 1`
/// events, the next event for it appends exactly one block; the very first
/// event fills the seeded block instead of growing the sequence. Chained
/// from the base case over a run of calls, this gives one new block
/// generation per additional same-slot event, while `Cube::set_event`'s
/// untouched-channels clause keeps the other two sequences at their length.
pub proof fn lemma_cube_growth_step(pre: Cube, post: Cube, event: Event, slot: int, k: int)
    requires
        pre.wf(),
        0 <= k,
        same_slot_history(pre, slot, k),
        channel_set_post(
            pre.spec_blocks(0),
            pre.spec_map(0),
            post.spec_blocks(0),
            post.spec_map(0),
            event,
            slot,
        ),
    ensures
        same_slot_history(post, slot, k + 1),
        post.spec_blocks(0).len() == (if k == 0 {
            1int
        } else {
            k + 1
        }),
{
}

/// An index map with one zero entry per slot.
fn zero_map() -> (m: Vec<usize>)
    ensures
        m@.len() == BLOCK_AREA,
        forall|i: int| 0 <= i < BLOCK_AREA ==> (#[trigger] m@[i]) == 0,
{
    let mut m: Vec<usize> = Vec::new();
    let mut i: usize = 0;
    while i < BLOCK_AREA
        invariant
            i <= BLOCK_AREA,
            m@.len() == i,
            forall|j: int| 0 <= j < i ==> (#[trigger] m@[j]) == 0,
        decreases BLOCK_AREA - i,
    {
        m.push(0);
        i = i + 1;
    }
    m
}

} // verus!
