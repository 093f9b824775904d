//! Fixed parameters of the pattern and of its audio.
use vstd::prelude::*;
use crate::chunk::Chunk;

verus! {

/// Tiles across the grid.
pub const TILES_ACROSS: u32 = 5;

/// Shifts per second of the grid animation, as the fraction
/// `GRID_SPEED_NUM / GRID_SPEED_DEN`.
pub const GRID_SPEED_NUM: u32 = 3;

/// See [`GRID_SPEED_NUM`].
pub const GRID_SPEED_DEN: u32 = 2;

/// Pixels in one read-back row; a copy from a texture to a buffer needs a
/// multiple of 256.
pub const AUDIO_READBACK_BUFFER_LEN: usize = 1024;

/// Samples in one audio chunk.
pub const AUDIO_CHUNK_LEN: usize = AUDIO_READBACK_BUFFER_LEN * 2;

/// Lag of the trailing chunk behind the active one: half a chunk.
pub const AUDIO_TRAIL_OFFSET: usize = AUDIO_CHUNK_LEN / 2;

/// Chunks the channel holds at once.
pub const AUDIO_CHANNEL_CAPACITY: usize = 1;

/// A chunk of the audio pipeline.
pub type AudioChunk = Chunk<AUDIO_CHUNK_LEN>;

} // verus!
