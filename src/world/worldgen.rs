//! Chunk generators.
use vstd::prelude::*;

use super::chunk::{Chunk, CHUNK_SIZE, CHUNK_TILES};
use super::tile::{first_match, name_bytes, Tile, TileManager};
use super::ChunkCoord;

verus! {

/// The first registered tile of the given name.
pub open spec fn registered(tileman: &TileManager, name: Seq<u8>) -> Tile {
    tileman.tiles()[first_match(tileman.tiles(), name).unwrap()]
}

/// The ground tile, registered as "grass".
pub open spec fn base_tile(tileman: &TileManager) -> Tile {
    registered(tileman, name_bytes("grass"@))
}

/// The second ground tile, registered as "grass1".
pub open spec fn alt_tile(tileman: &TileManager) -> Tile {
    registered(tileman, name_bytes("grass1"@))
}

/// Both ground tiles that the generators draw from are registered.
pub open spec fn tiles_ready(tileman: &TileManager) -> bool {
    tileman.has(name_bytes("grass"@)) && tileman.has(name_bytes("grass1"@))
}

/// Whether `c` is the chunk at `pos` whose tile `i` is the second ground tile
/// exactly where `alt(i)` holds, and the ground tile elsewhere.
pub open spec fn chunk_follows(c: Chunk, pos: ChunkCoord, tileman: &TileManager, alt: spec_fn(int) -> bool) -> bool {
    &&& c.wf()
    &&& c.position == pos
    &&& forall|i: int|
        0 <= i < CHUNK_TILES ==> (#[trigger] c.tiles@[i]).same_as(
            &(if alt(i) {
                alt_tile(tileman)
            } else {
                base_tile(tileman)
            }),
        )
}

/// Produces the contents of a chunk from its position.
pub trait Generator {
    /// Whether tile `i` of the chunk at `pos` is the second ground tile.
    spec fn picks_alt(&self, pos: ChunkCoord, i: int) -> bool;

    fn gen_chunk(&mut self, coords: ChunkCoord, tileman: &TileManager) -> (r: Chunk)
        requires
            tiles_ready(tileman),
        ensures
            chunk_follows(r, coords, tileman, |i: int| old(self).picks_alt(coords, i)),
            forall|p: ChunkCoord, i: int| final(self).picks_alt(p, i) == old(self).picks_alt(p, i),
    ;
}

/// The ground tile and the second ground tile, looked up by name.
fn ground_tiles(tileman: &TileManager) -> (r: (Tile, Tile))
    requires
        tiles_ready(tileman),
    ensures
        r.0.same_as(&base_tile(tileman)),
        r.1.same_as(&alt_tile(tileman)),
{
    let grass = tileman.get_tile("grass").unwrap();
    let grass2 = tileman.get_tile("grass1").unwrap();
    (grass, grass2)
}

/// Test generator: a checkerboard of the two ground tiles, the second one
/// where the parities of the local `x` and `y` differ.
#[derive(Default, Debug, Clone, Copy)]
pub struct LabGen;

impl Generator for LabGen {
    open spec fn picks_alt(&self, pos: ChunkCoord, i: int) -> bool {
        (i / CHUNK_SIZE as int) % 2 != (i % CHUNK_SIZE as int) % 2
    }

    fn gen_chunk(&mut self, position: ChunkCoord, tileman: &TileManager) -> (r: Chunk) {
        let (grass, grass2) = ground_tiles(tileman);
        let mut tiles: Vec<Tile> = Vec::new();
        let mut k: usize = 0;
        while k < CHUNK_TILES
            invariant
                k <= CHUNK_TILES,
                tiles@.len() == k,
                grass.same_as(&base_tile(tileman)),
                grass2.same_as(&alt_tile(tileman)),
                forall|n: int|
                    0 <= n < k ==> (#[trigger] tiles@[n]).same_as(
                        &(if self.picks_alt(position, n) {
                            alt_tile(tileman)
                        } else {
                            base_tile(tileman)
                        }),
                    ),
            decreases CHUNK_TILES - k,
        {
            let i = k / CHUNK_SIZE;
            let j = k % CHUNK_SIZE;
            if i % 2 != j % 2 {
                tiles.push(grass2.duplicate());
            } else {
                tiles.push(grass.duplicate());
            }
            k = k + 1;
        }
        Chunk::new(position, tiles)
    }
}

/// Generator that marks the world origin: the first tile of chunk `(0, 0)`
/// is the second ground tile, every other tile is the ground tile.
#[derive(Default, Debug, Clone, Copy)]
pub struct Origin;

impl Generator for Origin {
    open spec fn picks_alt(&self, pos: ChunkCoord, i: int) -> bool {
        pos.x == 0 && pos.y == 0 && i == 0
    }

    fn gen_chunk(&mut self, position: ChunkCoord, tileman: &TileManager) -> (r: Chunk) {
        let (grass, grass2) = ground_tiles(tileman);
        let mut tiles: Vec<Tile> = Vec::new();
        let mut k: usize = 0;
        while k < CHUNK_TILES
            invariant
                k <= CHUNK_TILES,
                tiles@.len() == k,
                grass.same_as(&base_tile(tileman)),
                grass2.same_as(&alt_tile(tileman)),
                forall|n: int|
                    0 <= n < k ==> (#[trigger] tiles@[n]).same_as(
                        &(if self.picks_alt(position, n) {
                            alt_tile(tileman)
                        } else {
                            base_tile(tileman)
                        }),
                    ),
            decreases CHUNK_TILES - k,
        {
            if position.x == 0 && position.y == 0 && k == 0 {
                tiles.push(grass2.duplicate());
            } else {
                tiles.push(grass.duplicate());
            }
            k = k + 1;
        }
        Chunk::new(position, tiles)
    }
}

} // verus!
