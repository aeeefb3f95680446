//! Spatial block decomposition for an asynchronous event-stream video codec.
//!
//! A sensor's event stream is partitioned into fixed-size square tiles; per
//! tile and per color channel, events are collected into [`block::Block`]s of
//! `BLOCK_SIZE_BIG x BLOCK_SIZE_BIG` slots. A [`cube::Cube`] routes each
//! incoming event to the right block, growing a new block generation whenever
//! a pixel's current block already holds an event for it. Completed blocks are
//! traversed in a fixed zig-zag order ([`zigzag`]) for downstream coding, and
//! [`intensity`] exposes the discrete part of the event-to-intensity
//! reconstruction.

use vstd::prelude::*;

pub mod block;
pub mod cube;
pub mod event;
pub mod intensity;
pub mod zigzag;

verus! {

/// Side length of one square block (and of one cube tile), in pixels.
pub const BLOCK_SIZE_BIG: usize = 64;

/// Number of pixel slots in one block.
pub const BLOCK_AREA: usize = BLOCK_SIZE_BIG * BLOCK_SIZE_BIG;

} // verus!
