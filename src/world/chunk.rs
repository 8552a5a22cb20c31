//! Fixed-size grids of tiles.
use vstd::prelude::*;

use super::tile::Tile;
use super::{ChunkCoord, TileCoord};

verus! {

/// Side of a chunk, in tiles.
pub const CHUNK_SIZE: usize = 32;

/// Number of tiles in a chunk.
pub const CHUNK_TILES: usize = CHUNK_SIZE * CHUNK_SIZE;

/// Index in a chunk's tile array of the local position `(x, y)`.
pub open spec fn tile_index(x: int, y: int) -> int {
    x * CHUNK_SIZE + y
}

/// A `CHUNK_SIZE` by `CHUNK_SIZE` block of tiles, stored by rows of `x`:
/// the tile at local `(x, y)` is `tiles[x * CHUNK_SIZE + y]`.
pub struct Chunk {
    pub tiles: Vec<Tile>,
    pub position: ChunkCoord,
}

impl Chunk {
    /// A chunk holds exactly `CHUNK_TILES` tiles.
    pub open spec fn wf(&self) -> bool {
        self.tiles@.len() == CHUNK_TILES
    }

    pub fn new(position: ChunkCoord, tiles: Vec<Tile>) -> (r: Chunk)
        requires
            tiles@.len() == CHUNK_TILES,
        ensures
            r.wf(),
            r.position == position,
            r.tiles@ == tiles@,
    {
        Chunk { tiles, position }
    }

    /// Per-tick update of the chunk; chunks hold no changing state yet.
    pub fn update(&mut self)
        ensures
            final(self).position == old(self).position,
            final(self).tiles@ == old(self).tiles@,
    {
    }

    /// The tile at a local position; `Err` when the position lies outside
    /// `[0, CHUNK_SIZE)` on either axis.
    pub fn get_tile(&self, coord: TileCoord) -> (r: Result<Tile, ()>)
        requires
            self.wf(),
        ensures
            (0 <= coord.x < CHUNK_SIZE && 0 <= coord.y < CHUNK_SIZE) <==> r is Ok,
            r is Ok ==> r->Ok_0.same_as(&self.tiles@[tile_index(coord.x as int, coord.y as int)]),
    {
        if coord.x < 0 || coord.x > (CHUNK_SIZE - 1) as i32 || coord.y < 0 || coord.y > (CHUNK_SIZE - 1) as i32 {
            Err(())
        } else {
            let i = coord.x as usize * CHUNK_SIZE + coord.y as usize;
            Ok(self.tiles[i].duplicate())
        }
    }
}

} // verus!
