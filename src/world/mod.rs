//! Coordinate spaces and the chunk store.
//!
//! World positions are fixed-point: one world unit (the side of one tile) is
//! `SUBUNITS` steps, so that conversions and comparisons are exact.
use vstd::prelude::*;

pub mod chunk;
pub mod entity;
pub mod tile;
pub mod worldgen;

use std::collections::HashMap;
use vstd::arithmetic::div_mod::{
    lemma_div_pos_is_pos, lemma_fundamental_div_mod, lemma_fundamental_div_mod_converse, lemma_mod_bound,
};

use chunk::{tile_index, Chunk, CHUNK_SIZE, CHUNK_TILES};
use entity::Entity;
use tile::{Tile, TileManager};
use worldgen::{tiles_ready, Generator};

verus! {

/// Fixed-point steps in one world unit.
pub const SUBUNITS: i64 = 256;

/// Bound on the magnitude of a world position, in fixed-point steps: every
/// tile of the `i32` grid has its position below it.
pub const WORLD_LIMIT: i64 = 0x80_0000_0000;

/// Position of a chunk on the chunk grid.
#[derive(Debug, Copy, Clone, PartialEq, Eq, Structural)]
pub struct ChunkCoord {
    pub x: i32,
    pub y: i32,
}

/// Position of a tile on the tile grid.
#[derive(Debug, Copy, Clone, PartialEq, Eq, Structural)]
pub struct TileCoord {
    pub x: i32,
    pub y: i32,
}

/// Continuous world position, in fixed-point steps of `1 / SUBUNITS`.
#[derive(Debug, Copy, Clone, PartialEq, Eq, Structural)]
pub struct Coordinate {
    pub x: i64,
    pub y: i64,
}

/// Floor division of `v` by `d`, for positive `d`.
pub open spec fn floor_div(v: int, d: int) -> int {
    v / d
}

/// `v` clamped into the range of `i32`.
pub open spec fn clamp_i32(v: int) -> i32 {
    if v < i32::MIN {
        i32::MIN
    } else if v > i32::MAX {
        i32::MAX
    } else {
        v as i32
    }
}

/// Side of a chunk, in tiles.
pub open spec fn chunk_side() -> int {
    CHUNK_SIZE as int
}

/// The chunk that holds a tile.
pub open spec fn chunk_of_tile(t: TileCoord) -> ChunkCoord {
    ChunkCoord { x: floor_div(t.x as int, chunk_side()) as i32, y: floor_div(t.y as int, chunk_side()) as i32 }
}

/// The first tile of a chunk; the grid wraps where the product leaves `i32`.
pub open spec fn chunk_origin(c: ChunkCoord) -> TileCoord {
    TileCoord { x: (c.x * chunk_side()) as i32, y: (c.y * chunk_side()) as i32 }
}

/// The tile that holds a world position, clamped to the tile grid.
pub open spec fn tile_of_world(w: Coordinate) -> TileCoord {
    TileCoord { x: clamp_i32(floor_div(w.x as int, SUBUNITS as int)), y: clamp_i32(floor_div(w.y as int, SUBUNITS as int)) }
}

/// The chunk that holds a world position, clamped to the chunk grid.
pub open spec fn chunk_of_world(w: Coordinate) -> ChunkCoord {
    ChunkCoord {
        x: clamp_i32(floor_div(w.x as int, SUBUNITS * chunk_side())),
        y: clamp_i32(floor_div(w.y as int, SUBUNITS * chunk_side())),
    }
}

/// A tile's position local to the chunk `c`, wrapped into `[0, CHUNK_SIZE)`.
pub open spec fn local_in_chunk(c: ChunkCoord, t: TileCoord) -> TileCoord {
    TileCoord {
        x: ((t.x - c.x * chunk_side()) % chunk_side()) as i32,
        y: ((t.y - c.y * chunk_side()) % chunk_side()) as i32,
    }
}

/// Whether a world position lies in the range that the tile grid covers.
pub open spec fn world_in_grid(w: Coordinate) -> bool {
    i32::MIN <= floor_div(w.x as int, SUBUNITS as int) <= i32::MAX
        && i32::MIN <= floor_div(w.y as int, SUBUNITS as int) <= i32::MAX
}

/// Floor division by a positive divisor moves toward zero, past it by at most one.
proof fn lemma_floor_div_bounds(v: int, d: int)
    requires
        d > 0,
    ensures
        v >= 0 ==> 0 <= floor_div(v, d) <= v,
        v < 0 ==> v <= floor_div(v, d) < 0,
{
    if v >= 0 {
        vstd::arithmetic::div_mod::lemma_div_pos_is_pos(v, d);
        vstd::arithmetic::div_mod::lemma_div_is_ordered_by_denominator(v, 1, d);
    } else {
        vstd::arithmetic::div_mod::lemma_fundamental_div_mod(v, d);
        vstd::arithmetic::div_mod::lemma_mod_bound(v, d);
        assert(v <= v / d) by (nonlinear_arith)
            requires
                v == d * (v / d) + v % d,
                0 <= v % d < d,
                v < 0,
                d > 0,
        ;
        assert(v / d < 0) by (nonlinear_arith)
            requires
                v == d * (v / d) + v % d,
                0 <= v % d < d,
                v < 0,
                d > 0,
        ;
    }
}

pub(crate) fn floor_div_i64(v: i64, d: i64) -> (r: i64)
    requires
        d > 0,
    ensures
        r == floor_div(v as int, d as int),
{
    proof {
        lemma_floor_div_bounds(v as int, d as int);
    }
    v.checked_div_euclid(d).unwrap()
}

fn clamp_to_i32(v: i64) -> (r: i32)
    ensures
        r == clamp_i32(v as int),
{
    if v < i32::MIN as i64 {
        i32::MIN
    } else if v > i32::MAX as i64 {
        i32::MAX
    } else {
        v as i32
    }
}

impl ChunkCoord {
    pub fn new(x: i32, y: i32) -> (r: Self)
        ensures
            r == (ChunkCoord { x, y }),
    {
        ChunkCoord { x, y }
    }

    /// The position of `tcoord` local to this chunk, always in `[0, CHUNK_SIZE)`
    /// on both axes, also for tiles outside the chunk.
    pub fn within_chunk(self, tcoord: TileCoord) -> (r: TileCoord)
        ensures
            r == local_in_chunk(self, tcoord),
            0 <= r.x < CHUNK_SIZE,
            0 <= r.y < CHUNK_SIZE,
    {
        let n = CHUNK_SIZE as i64;
        let dx = tcoord.x as i64 - self.x as i64 * n;
        let dy = tcoord.y as i64 - self.y as i64 * n;
        let x = dx.checked_rem_euclid(n).unwrap();
        let y = dy.checked_rem_euclid(n).unwrap();
        TileCoord { x: x as i32, y: y as i32 }
    }
}

impl TileCoord {
    pub fn new(x: i32, y: i32) -> (r: Self)
        ensures
            r == (TileCoord { x, y }),
    {
        TileCoord { x, y }
    }
}

impl Coordinate {
    /// A position from its fixed-point steps.
    pub fn new(x: i64, y: i64) -> (r: Self)
        ensures
            r == (Coordinate { x, y }),
    {
        Coordinate { x, y }
    }
}

impl From<TileCoord> for ChunkCoord {
    /// The chunk that holds the tile (floor division on both axes).
    fn from(value: TileCoord) -> (r: ChunkCoord) {
        let n = CHUNK_SIZE as i64;
        let x = floor_div_i64(value.x as i64, n);
        let y = floor_div_i64(value.y as i64, n);
        ChunkCoord { x: x as i32, y: y as i32 }
    }
}

impl vstd::std_specs::convert::FromSpecImpl<TileCoord> for ChunkCoord {
    open spec fn obeys_from_spec() -> bool {
        true
    }

    open spec fn from_spec(v: TileCoord) -> ChunkCoord {
        chunk_of_tile(v)
    }
}

impl From<Coordinate> for ChunkCoord {
    /// The chunk that holds the world position, clamped to the chunk grid.
    fn from(value: Coordinate) -> (r: ChunkCoord) {
        let d = SUBUNITS * CHUNK_SIZE as i64;
        let x = clamp_to_i32(floor_div_i64(value.x, d));
        let y = clamp_to_i32(floor_div_i64(value.y, d));
        ChunkCoord { x, y }
    }
}

impl vstd::std_specs::convert::FromSpecImpl<Coordinate> for ChunkCoord {
    open spec fn obeys_from_spec() -> bool {
        true
    }

    open spec fn from_spec(v: Coordinate) -> ChunkCoord {
        chunk_of_world(v)
    }
}

impl From<ChunkCoord> for TileCoord {
    /// The first tile of the chunk.
    fn from(value: ChunkCoord) -> (r: TileCoord) {
        let n = CHUNK_SIZE as i64;
        let x = value.x as i64 * n;
        let y = value.y as i64 * n;
        TileCoord { x: x as i32, y: y as i32 }
    }
}

impl vstd::std_specs::convert::FromSpecImpl<ChunkCoord> for TileCoord {
    open spec fn obeys_from_spec() -> bool {
        true
    }

    open spec fn from_spec(v: ChunkCoord) -> TileCoord {
        chunk_origin(v)
    }
}

impl From<Coordinate> for TileCoord {
    /// The tile that holds the world position, clamped to the tile grid.
    fn from(value: Coordinate) -> (r: TileCoord) {
        let x = clamp_to_i32(floor_div_i64(value.x, SUBUNITS));
        let y = clamp_to_i32(floor_div_i64(value.y, SUBUNITS));
        TileCoord { x, y }
    }
}

impl vstd::std_specs::convert::FromSpecImpl<Coordinate> for TileCoord {
    open spec fn obeys_from_spec() -> bool {
        true
    }

    open spec fn from_spec(v: Coordinate) -> TileCoord {
        tile_of_world(v)
    }
}

impl From<ChunkCoord> for Coordinate {
    /// The minimum corner of the chunk.
    fn from(value: ChunkCoord) -> (r: Coordinate) {
        let n = CHUNK_SIZE as i64;
        Coordinate { x: value.x as i64 * n * SUBUNITS, y: value.y as i64 * n * SUBUNITS }
    }
}

impl vstd::std_specs::convert::FromSpecImpl<ChunkCoord> for Coordinate {
    open spec fn obeys_from_spec() -> bool {
        true
    }

    open spec fn from_spec(v: ChunkCoord) -> Coordinate {
        Coordinate { x: (v.x * chunk_side() * SUBUNITS) as i64, y: (v.y * chunk_side() * SUBUNITS) as i64 }
    }
}

impl From<TileCoord> for Coordinate {
    /// The minimum corner of the tile.
    fn from(value: TileCoord) -> (r: Coordinate) {
        Coordinate { x: value.x as i64 * SUBUNITS, y: value.y as i64 * SUBUNITS }
    }
}

impl vstd::std_specs::convert::FromSpecImpl<TileCoord> for Coordinate {
    open spec fn obeys_from_spec() -> bool {
        true
    }

    open spec fn from_spec(v: TileCoord) -> Coordinate {
        Coordinate { x: (v.x * SUBUNITS) as i64, y: (v.y * SUBUNITS) as i64 }
    }
}

/// A tile lies in the chunk that `ChunkCoord::from` gives for it: between that
/// chunk's first tile and `CHUNK_SIZE` tiles further, on both axes; its
/// position within that chunk is its offset from the chunk's first tile.
pub proof fn lemma_tile_within_its_chunk(t: TileCoord)
    ensures
        chunk_origin(chunk_of_tile(t)).x <= t.x < chunk_origin(chunk_of_tile(t)).x + CHUNK_SIZE,
        chunk_origin(chunk_of_tile(t)).y <= t.y < chunk_origin(chunk_of_tile(t)).y + CHUNK_SIZE,
        local_in_chunk(chunk_of_tile(t), t) == (TileCoord {
            x: (t.x - chunk_origin(chunk_of_tile(t)).x) as i32,
            y: (t.y - chunk_origin(chunk_of_tile(t)).y) as i32,
        }),
{
    lemma_floor_div_origin(t.x as int);
    lemma_floor_div_origin(t.y as int);
    let c = chunk_of_tile(t);
    let dx = t.x - c.x * chunk_side();
    let dy = t.y - c.y * chunk_side();
    vstd::arithmetic::div_mod::lemma_small_mod(dx as nat, chunk_side() as nat);
    vstd::arithmetic::div_mod::lemma_small_mod(dy as nat, chunk_side() as nat);
}

/// `floor(v / CHUNK_SIZE) * CHUNK_SIZE` lies in `(v - CHUNK_SIZE, v]`, inside `i32`.
proof fn lemma_floor_div_origin(v: int)
    requires
        i32::MIN <= v <= i32::MAX,
    ensures
        i32::MIN <= floor_div(v, chunk_side()) <= i32::MAX,
        i32::MIN <= floor_div(v, chunk_side()) * chunk_side() <= v,
        v < floor_div(v, chunk_side()) * chunk_side() + chunk_side(),
{
    lemma_floor_div_bounds(v, chunk_side());
    vstd::arithmetic::div_mod::lemma_fundamental_div_mod(v, chunk_side());
    vstd::arithmetic::div_mod::lemma_mod_bound(v, chunk_side());
    let q = floor_div(v, chunk_side());
    assert(q * chunk_side() == chunk_side() * q) by (nonlinear_arith);
    assert(i32::MIN <= q * chunk_side()) by (nonlinear_arith)
        requires
            q * 32 == v - v % 32,
            0 <= v % 32 < 32,
            v >= i32::MIN,
            i32::MIN % 32 == 0,
    {
    }
}

/// Flooring by `c` and then by `d` is flooring by `c * d`, for any sign of `x`.
proof fn lemma_floor_div_nested(x: int, c: int, d: int)
    requires
        c > 0,
        d > 0,
    ensures
        floor_div(floor_div(x, c), d) == floor_div(x, c * d),
{
    assert(c * d > 0) by (nonlinear_arith)
        requires
            c > 0,
            d > 0,
    ;
    let q = x / (c * d);
    let r = x % (c * d);
    lemma_fundamental_div_mod(x, c * d);
    lemma_mod_bound(x, c * d);
    let a = r / c;
    let b = r % c;
    lemma_fundamental_div_mod(r, c);
    lemma_mod_bound(r, c);
    lemma_div_pos_is_pos(r, c);
    assert(a < d) by (nonlinear_arith)
        requires
            r == c * a + b,
            0 <= b,
            r < c * d,
            c > 0,
    ;
    assert(x == (d * q + a) * c + b) by (nonlinear_arith)
        requires
            x == (c * d) * q + r,
            r == c * a + b,
    ;
    lemma_fundamental_div_mod_converse(x, c, d * q + a, b);
    assert(d * q + a == q * d + a) by (nonlinear_arith);
    lemma_fundamental_div_mod_converse(d * q + a, d, q, a);
}

/// Going from a world position to its tile and then to that tile's chunk
/// gives the chunk of the world position, for every position on the grid.
pub proof fn lemma_world_chunk_agrees(w: Coordinate)
    requires
        world_in_grid(w),
    ensures
        chunk_of_tile(tile_of_world(w)) == chunk_of_world(w),
{
    lemma_floor_div_nested(w.x as int, SUBUNITS as int, chunk_side());
    lemma_floor_div_nested(w.y as int, SUBUNITS as int, chunk_side());
    lemma_floor_div_origin(floor_div(w.x as int, SUBUNITS as int));
    lemma_floor_div_origin(floor_div(w.y as int, SUBUNITS as int));
}

/// Key of a chunk in the store: both coordinates, shifted to be unsigned,
/// side by side in one `u64`.
pub open spec fn chunk_key(c: ChunkCoord) -> u64 {
    ((c.x as int + 0x8000_0000) * 0x1_0000_0000 + (c.y as int + 0x8000_0000)) as u64
}

proof fn lemma_chunk_key_injective(a: ChunkCoord, b: ChunkCoord)
    ensures
        chunk_key(a) == chunk_key(b) ==> a == b,
{
    let ax = a.x as int + 0x8000_0000;
    let ay = a.y as int + 0x8000_0000;
    let bx = b.x as int + 0x8000_0000;
    let by = b.y as int + 0x8000_0000;
    assert(0 <= ax * 0x1_0000_0000 + ay < 0x1_0000_0000_0000_0000) by (nonlinear_arith)
        requires
            0 <= ax < 0x1_0000_0000,
            0 <= ay < 0x1_0000_0000,
    ;
    assert(0 <= bx * 0x1_0000_0000 + by < 0x1_0000_0000_0000_0000) by (nonlinear_arith)
        requires
            0 <= bx < 0x1_0000_0000,
            0 <= by < 0x1_0000_0000,
    ;
    if chunk_key(a) == chunk_key(b) {
        assert(ax == bx && ay == by) by (nonlinear_arith)
            requires
                ax * 0x1_0000_0000 + ay == bx * 0x1_0000_0000 + by,
                0 <= ay < 0x1_0000_0000,
                0 <= by < 0x1_0000_0000,
        ;
    }
}

fn key_of(c: ChunkCoord) -> (r: u64)
    ensures
        r == chunk_key(c),
{
    let x = (c.x as i64 + 0x8000_0000) as u64;
    let y = (c.y as i64 + 0x8000_0000) as u64;
    proof {
        assert(x * 0x1_0000_0000 + y < 0x1_0000_0000_0000_0000) by (nonlinear_arith)
            requires
                x < 0x1_0000_0000,
                y < 0x1_0000_0000,
        ;
    }
    x * 0x1_0000_0000 + y
}

/// The whole discovered world: its chunks, at most one per position, the
/// entities on it, the generator that makes new chunks, and the camera.
pub struct Surface<G: Generator> {
    chunks: HashMap<u64, Chunk>,
    entities: Vec<Entity>,
    generator: G,
    camera_pos: Coordinate,
}

impl<G: Generator> Surface<G> {
    /// Each stored chunk is well formed and stored under its own position.
    pub closed spec fn wf(&self) -> bool {
        forall|k: u64|
            #[trigger] self.chunks@.contains_key(k) ==> chunk_key(self.chunks@[k].position) == k
                && self.chunks@[k].wf()
    }

    /// The chunk stored at `c`, if any.
    pub closed spec fn chunk_at(&self, c: ChunkCoord) -> Option<Chunk> {
        if self.chunks@.contains_key(chunk_key(c)) {
            Some(self.chunks@[chunk_key(c)])
        } else {
            None
        }
    }

    /// The generator that makes new chunks.
    pub closed spec fn generator(&self) -> G {
        self.generator
    }

    /// Number of stored chunks.
    pub closed spec fn count(&self) -> nat {
        self.chunks@.len()
    }

    /// The entities on the surface.
    pub closed spec fn entities(&self) -> Seq<Entity> {
        self.entities@
    }

    /// The camera position.
    pub closed spec fn camera(&self) -> Coordinate {
        self.camera_pos
    }

    /// The tile stored at `t`, if its chunk is stored.
    pub open spec fn tile_at(&self, t: TileCoord) -> Option<Tile> {
        match self.chunk_at(chunk_of_tile(t)) {
            Some(c) => {
                let l = local_in_chunk(c.position, t);
                Some(c.tiles@[tile_index(l.x as int, l.y as int)])
            },
            None => None,
        }
    }

    /// In a chunk made by a generator, each tile is found where the generator
    /// put it: for a tile `t` of the chunk at `c`, the tile stored at `t` is the
    /// second ground tile exactly where the generator picks it for the local
    /// index of `t`.
    pub proof fn lemma_generated_tile(&self, c: ChunkCoord, t: TileCoord, tileman: &TileManager, alt: spec_fn(int) -> bool)
        requires
            self.wf(),
            self.chunk_at(c) is Some,
            worldgen::chunk_follows(self.chunk_at(c)->0, c, tileman, alt),
            chunk_of_tile(t) == c,
        ensures
            self.tile_at(t) is Some,
            (self.tile_at(t)->0).same_as(
                &(if alt(tile_index(local_in_chunk(c, t).x as int, local_in_chunk(c, t).y as int)) {
                    worldgen::alt_tile(tileman)
                } else {
                    worldgen::base_tile(tileman)
                }),
            ),
    {
        let l = local_in_chunk(c, t);
        let i = tile_index(l.x as int, l.y as int);
        assert(0 <= l.x < 32 && 0 <= l.y < 32);
        assert(0 <= i < 1024) by (nonlinear_arith)
            requires
                i == l.x * 32 + l.y,
                0 <= l.x < 32,
                0 <= l.y < 32,
        ;
        let ch = self.chunk_at(c)->0;
        assert(ch.tiles@[i] == self.tile_at(t)->0);
    }

    /// A stored chunk is well formed and sits at the position it is stored at:
    /// once `gen_chunk(c)` has stored a chunk at `c`, `get_chunk(c)` returns a
    /// chunk whose position is `c`.
    pub proof fn lemma_chunk_at_position(&self, c: ChunkCoord)
        requires
            self.wf(),
            self.chunk_at(c) is Some,
        ensures
            (self.chunk_at(c)->0).position == c,
            (self.chunk_at(c)->0).wf(),
    {
        lemma_chunk_key_injective(self.chunks@[chunk_key(c)].position, c);
    }

    /// The tile stored at a tile `t` of a stored chunk `c` is the chunk's tile at
    /// the local position `t - 32 * c`, that is at index
    /// `(t.x - 32 * c.x) * 32 + (t.y - 32 * c.y)`.
    pub proof fn lemma_tile_in_stored_chunk(&self, c: ChunkCoord, t: TileCoord)
        requires
            self.wf(),
            self.chunk_at(c) is Some,
            c.x * chunk_side() <= t.x < c.x * chunk_side() + chunk_side(),
            c.y * chunk_side() <= t.y < c.y * chunk_side() + chunk_side(),
        ensures
            self.tile_at(t) == Some(
                (self.chunk_at(c)->0).tiles@[tile_index(t.x - c.x * chunk_side(), t.y - c.y * chunk_side())],
            ),
    {
        let lx = t.x - c.x * chunk_side();
        let ly = t.y - c.y * chunk_side();
        lemma_fundamental_div_mod_converse(t.x as int, chunk_side(), c.x as int, lx);
        lemma_fundamental_div_mod_converse(t.y as int, chunk_side(), c.y as int, ly);
        assert(chunk_of_tile(t) == c);
        self.lemma_chunk_at_position(c);
        vstd::arithmetic::div_mod::lemma_small_mod(lx as nat, chunk_side() as nat);
        vstd::arithmetic::div_mod::lemma_small_mod(ly as nat, chunk_side() as nat);
        assert(local_in_chunk(c, t) == (TileCoord { x: lx as i32, y: ly as i32 }));
    }

    /// An empty world, with the camera at the origin.
    pub fn new(generator: G) -> (r: Surface<G>)
        ensures
            r.wf(),
            r.generator() == generator,
            forall|c: ChunkCoord| (#[trigger] r.chunk_at(c)) is None,
            r.entities().len() == 0,
            r.count() == 0,
            r.camera() == (Coordinate { x: 0, y: 0 }),
    {
        let r = Surface { chunks: HashMap::new(), entities: Vec::new(), generator, camera_pos: Coordinate::new(0, 0) };
        proof {
            broadcast use vstd::std_specs::hash::group_hash_axioms;
        }
        r
    }

    /// Makes the chunk at `coord` with the generator and stores it, unless a
    /// chunk is stored there already, which then stays as it is.
    pub fn gen_chunk(&mut self, coord: ChunkCoord, tileman: &TileManager)
        requires
            old(self).wf(),
            tiles_ready(tileman),
        ensures
            final(self).wf(),
            old(self).chunk_at(coord) is Some ==> final(self).chunk_at(coord) == old(self).chunk_at(coord)
                && final(self).count() == old(self).count(),
            old(self).chunk_at(coord) is None ==> final(self).count() == old(self).count() + 1,
            old(self).chunk_at(coord) is None ==> final(self).chunk_at(coord) is Some
                && worldgen::chunk_follows(
                    final(self).chunk_at(coord)->0,
                    coord,
                    tileman,
                    |i: int| old(self).generator().picks_alt(coord, i),
                ),
            forall|c: ChunkCoord| c != coord ==> #[trigger] final(self).chunk_at(c) == old(self).chunk_at(c),
            forall|p: ChunkCoord, i: int|
                #[trigger] final(self).generator().picks_alt(p, i) == old(self).generator().picks_alt(p, i),
            final(self).entities() == old(self).entities(),
            final(self).camera() == old(self).camera(),
    {
        broadcast use vstd::std_specs::hash::group_hash_axioms;

        let key = key_of(coord);
        if self.chunks.contains_key(&key) {
            return;
        }
        let chunk = self.generator.gen_chunk(coord, tileman);
        self.chunks.insert(key, chunk);
        proof {
            assert forall|c: ChunkCoord| c != coord implies #[trigger] self.chunk_at(c) == old(self).chunk_at(c) by {
                lemma_chunk_key_injective(c, coord);
            }
        }
    }

    /// The chunk stored at `coord`, if any.
    pub fn get_chunk(&self, coord: ChunkCoord) -> (r: Option<&Chunk>)
        requires
            self.wf(),
        ensures
            match r {
                Some(c) => self.chunk_at(coord) == Some(*c) && c.position == coord && c.wf(),
                None => self.chunk_at(coord) is None,
            },
    {
        broadcast use vstd::std_specs::hash::group_hash_axioms;

        let r = self.chunks.get(&key_of(coord));
        proof {
            if let Some(c) = r {
                lemma_chunk_key_injective(c.position, coord);
            }
        }
        r
    }

    /// The tile at `coord`, found in the chunk that holds it; `None` when
    /// that chunk is not stored.
    pub fn get_tile(&self, coord: TileCoord) -> (r: Option<Tile>)
        requires
            self.wf(),
        ensures
            match self.tile_at(coord) {
                Some(t) => r is Some && r->0.same_as(&t),
                None => r is None,
            },
    {
        let chunk = self.get_chunk(ChunkCoord::from(coord));
        match chunk {
            Some(c) => {
                let tcoord = c.position.within_chunk(coord);
                match c.get_tile(tcoord) {
                    Ok(tile) => Some(tile),
                    Err(()) => None,
                }
            },
            None => None,
        }
    }

    pub fn camera_pos(&self) -> (r: Coordinate)
        ensures
            r == self.camera(),
    {
        self.camera_pos
    }

    /// Moves the camera to `pos`.
    pub fn set_camera_pos(&mut self, pos: Coordinate)
        ensures
            final(self).camera() == pos,
            final(self).wf() == old(self).wf(),
            forall|c: ChunkCoord| #[trigger] final(self).chunk_at(c) == old(self).chunk_at(c),
            final(self).entities() == old(self).entities(),
    {
        self.camera_pos = pos;
    }

    /// Number of stored chunks.
    pub fn chunk_count(&self) -> (r: usize)
        ensures
            r == self.count(),
    {
        self.chunks.len()
    }
}

} // verus!
