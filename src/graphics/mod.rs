//! Screen space and the decisions of the camera-anchored tile buffer.
//!
//! Screen positions are fixed-point like world positions: `SUBUNITS` steps to
//! a pixel. With `scale` pixels to a world unit, a world offset of `d` steps is
//! a screen offset of `d * scale` steps.
use vstd::prelude::*;

use crate::world::chunk::{Chunk, CHUNK_SIZE, CHUNK_TILES};
use crate::world::worldgen::Generator;
use crate::world::{floor_div, floor_div_i64, ChunkCoord, Coordinate, Surface, SUBUNITS, WORLD_LIMIT};
use vstd::arithmetic::div_mod::{
    lemma_div_is_ordered, lemma_div_is_ordered_by_denominator, lemma_div_pos_is_pos, lemma_fundamental_div_mod,
};

verus! {

/// Margin of the tile buffer around the window, in world units.
pub const EXTRASIZE: i64 = 2;

/// Displacement of the camera from either anchor, in fixed-point steps, past
/// which the buffer is dropped and drawn anew.
pub const REFRESH_DISTANCE: i64 = 10 * SUBUNITS;

/// Whether a world position lies within the range that the buffer logic
/// accepts.
pub open spec fn in_world(c: Coordinate) -> bool {
    -WORLD_LIMIT <= c.x <= WORLD_LIMIT && -WORLD_LIMIT <= c.y <= WORLD_LIMIT
}

/// A camera-relative screen position, in fixed-point steps of a pixel.
#[derive(Debug, Copy, Clone, PartialEq, Eq, Structural)]
pub struct ScreenCoord {
    pub x: i64,
    pub y: i64,
}

impl ScreenCoord {
    pub fn new(x: i64, y: i64) -> (r: ScreenCoord)
        ensures
            r == (ScreenCoord { x, y }),
    {
        ScreenCoord { x, y }
    }
}

/// Conversion between world and screen positions for a camera, a window of
/// `window_size` pixels, `scale` pixels to a world unit, and a cache offset.
#[derive(Debug, Copy, Clone)]
pub struct ScreenWorldConverter {
    pub cam_pos: Coordinate,
    pub window_size: (u32, u32),
    pub scale: u32,
    pub offset: Coordinate,
}

/// Screen position along one axis: `(w - cam + offset) * scale + window / 2`.
pub open spec fn to_screen_axis(w: int, cam: int, offset: int, scale: int, window: int) -> int {
    (w - cam + offset) * scale + window * SUBUNITS / 2
}

/// World position along one axis: `(s - window / 2) / scale + cam - offset`,
/// the division rounded down to a step.
pub open spec fn to_world_axis(s: int, cam: int, offset: int, scale: int, window: int) -> int {
    (s - window * SUBUNITS / 2) / scale + cam - offset
}

impl ScreenWorldConverter {
    pub open spec fn screen_of(&self, c: Coordinate) -> (int, int) {
        (
            to_screen_axis(c.x as int, self.cam_pos.x as int, self.offset.x as int, self.scale as int, self.window_size.0 as int),
            to_screen_axis(c.y as int, self.cam_pos.y as int, self.offset.y as int, self.scale as int, self.window_size.1 as int),
        )
    }

    pub open spec fn world_of(&self, s: ScreenCoord) -> (int, int) {
        (
            to_world_axis(s.x as int, self.cam_pos.x as int, self.offset.x as int, self.scale as int, self.window_size.0 as int),
            to_world_axis(s.y as int, self.cam_pos.y as int, self.offset.y as int, self.scale as int, self.window_size.1 as int),
        )
    }

    /// The screen position of a world position.
    pub fn from_world(&self, coord: Coordinate) -> (r: ScreenCoord)
        requires
            in_world(coord),
            in_world(self.cam_pos),
            in_world(self.offset),
            i64::MIN <= self.screen_of(coord).0 <= i64::MAX,
            i64::MIN <= self.screen_of(coord).1 <= i64::MAX,
        ensures
            r.x == self.screen_of(coord).0,
            r.y == self.screen_of(coord).1,
    {
        let x = screen_axis(coord.x, self.cam_pos.x, self.offset.x, self.scale, self.window_size.0);
        let y = screen_axis(coord.y, self.cam_pos.y, self.offset.y, self.scale, self.window_size.1);
        ScreenCoord { x, y }
    }

    /// The world position of a screen position; the exact reverse of
    /// `from_world`.
    pub fn from_screen(&self, coord: ScreenCoord) -> (r: Coordinate)
        requires
            self.scale > 0,
            in_world(self.cam_pos),
            in_world(self.offset),
            i64::MIN <= self.world_of(coord).0 <= i64::MAX,
            i64::MIN <= self.world_of(coord).1 <= i64::MAX,
        ensures
            r.x == self.world_of(coord).0,
            r.y == self.world_of(coord).1,
    {
        let x = world_axis(coord.x, self.cam_pos.x, self.offset.x, self.scale, self.window_size.0);
        let y = world_axis(coord.y, self.cam_pos.y, self.offset.y, self.scale, self.window_size.1);
        Coordinate { x, y }
    }
}

fn screen_axis(w: i64, cam: i64, offset: i64, scale: u32, window: u32) -> (r: i64)
    requires
        -WORLD_LIMIT <= w <= WORLD_LIMIT,
        -WORLD_LIMIT <= cam <= WORLD_LIMIT,
        -WORLD_LIMIT <= offset <= WORLD_LIMIT,
        i64::MIN <= to_screen_axis(w as int, cam as int, offset as int, scale as int, window as int) <= i64::MAX,
    ensures
        r == to_screen_axis(w as int, cam as int, offset as int, scale as int, window as int),
{
    let d = (w - cam + offset) as i128;
    proof {
        assert(-0x1_0000_0000_0000_0000_0000 <= d * scale <= 0x1_0000_0000_0000_0000_0000) by (nonlinear_arith)
            requires
                -0x1_0000_0000_0000 < d < 0x1_0000_0000_0000,
                0 <= scale < 0x1_0000_0000,
        ;
    }
    let s = d * scale as i128 + window as i128 * SUBUNITS as i128 / 2;
    s as i64
}

fn world_axis(s: i64, cam: i64, offset: i64, scale: u32, window: u32) -> (r: i64)
    requires
        scale > 0,
        -WORLD_LIMIT <= cam <= WORLD_LIMIT,
        -WORLD_LIMIT <= offset <= WORLD_LIMIT,
        i64::MIN <= to_world_axis(s as int, cam as int, offset as int, scale as int, window as int) <= i64::MAX,
    ensures
        r == to_world_axis(s as int, cam as int, offset as int, scale as int, window as int),
{
    let a = s as i128 - window as i128 * SUBUNITS as i128 / 2;
    let q = a.checked_div_euclid(scale as i128).unwrap();
    let w = q + cam as i128 - offset as i128;
    w as i64
}

/// Converting a world position to the screen and back gives the position
/// itself, for every camera, window, positive scale and offset.
pub proof fn lemma_screen_round_trip(conv: ScreenWorldConverter, p: Coordinate)
    requires
        conv.scale > 0,
    ensures
        ({
            let s = conv.screen_of(p);
            to_world_axis(s.0, conv.cam_pos.x as int, conv.offset.x as int, conv.scale as int, conv.window_size.0 as int) == p.x
                && to_world_axis(s.1, conv.cam_pos.y as int, conv.offset.y as int, conv.scale as int, conv.window_size.1 as int)
                == p.y
        }),
{
    let k = conv.scale as int;
    vstd::arithmetic::div_mod::lemma_div_multiples_vanish(p.x - conv.cam_pos.x + conv.offset.x, k);
    vstd::arithmetic::div_mod::lemma_div_multiples_vanish(p.y - conv.cam_pos.y + conv.offset.y, k);
    assert((p.x - conv.cam_pos.x + conv.offset.x) * k == k * (p.x - conv.cam_pos.x + conv.offset.x)) by (nonlinear_arith);
    assert((p.y - conv.cam_pos.y + conv.offset.y) * k == k * (p.y - conv.cam_pos.y + conv.offset.y)) by (nonlinear_arith);
}

/// `v` steps rounded toward zero to whole world units.
pub open spec fn round_in(v: int) -> int {
    if v < 0 {
        -((-v) / SUBUNITS as int)
    } else {
        v / SUBUNITS as int
    }
}

/// `v` steps rounded away from zero to whole world units.
pub open spec fn round_out(v: int) -> int {
    if v < 0 {
        -((-v + SUBUNITS - 1) / SUBUNITS as int)
    } else {
        (v + SUBUNITS - 1) / SUBUNITS as int
    }
}

/// Rounds a fixed-point value in, toward zero, to whole world units.
pub fn signed_floor(v: i64) -> (r: i64)
    requires
        v > i64::MIN,
    ensures
        r == round_in(v as int),
{
    if v < 0 {
        -((-v) / SUBUNITS)
    } else {
        v / SUBUNITS
    }
}

/// Rounds a fixed-point value out, away from zero, to whole world units.
pub fn signed_ceil(v: i64) -> (r: i64)
    requires
        i64::MIN + SUBUNITS <= v <= i64::MAX - SUBUNITS,
    ensures
        r == round_out(v as int),
{
    if v < 0 {
        -((-v + (SUBUNITS - 1)) / SUBUNITS)
    } else {
        (v + (SUBUNITS - 1)) / SUBUNITS
    }
}

/// What the renderer does with the tile buffer in one frame.
#[derive(Debug, Copy, Clone, PartialEq, Eq, Structural)]
pub enum BufferAction {
    /// Draw a new buffer around the camera.
    Redraw,
    /// Draw the old buffer into a new one moved back by the camera's
    /// displacement `(dx, dy)` (in steps), then fill the exposed edge.
    Shift { dx: i64, dy: i64 },
    /// Keep the buffer as it is.
    Reuse,
}

/// State of the tile buffer: whether one exists, its size in pixels, the
/// window it was made for, the position it is centred on (`prev_cam_pos`) and
/// the position of its last full drawing (`refreshpos`).
#[derive(Debug, Copy, Clone)]
pub struct GraphicsData {
    pub buffered: bool,
    pub buffer_size: (u64, u64),
    pub window_size: (u32, u32),
    pub prev_cam_pos: Coordinate,
    pub zoom: u32,
    pub refreshpos: Coordinate,
}

/// Size in pixels of the buffer for a window: the window with a margin of
/// `EXTRASIZE` world units.
pub open spec fn buffer_size_for(window: (u32, u32), scale: u32) -> (u64, u64) {
    ((window.0 + EXTRASIZE * scale) as u64, (window.1 + EXTRASIZE * scale) as u64)
}

/// Whether a displacement passes the refresh distance on either axis.
pub open spec fn too_far(from: Coordinate, to: Coordinate) -> bool {
    abs(to.x - from.x) > REFRESH_DISTANCE || abs(to.y - from.y) > REFRESH_DISTANCE
}

/// Whether a displacement reaches a whole world unit on either axis.
pub open spec fn moved(from: Coordinate, to: Coordinate) -> bool {
    abs(to.x - from.x) >= SUBUNITS || abs(to.y - from.y) >= SUBUNITS
}

pub open spec fn abs(v: int) -> int {
    if v < 0 {
        -v
    } else {
        v
    }
}

/// Whether the buffer must be drawn anew for a camera at `cam`: there is none,
/// the window or scale changed its size, or the camera went too far from
/// either anchor.
pub open spec fn must_redraw(g: GraphicsData, cam: Coordinate, window: (u32, u32), scale: u32) -> bool {
    !g.buffered || g.buffer_size != buffer_size_for(window, scale) || too_far(g.prev_cam_pos, cam) || too_far(
        g.refreshpos,
        cam,
    )
}

fn abs_i64(v: i64) -> (r: i64)
    requires
        v > i64::MIN,
    ensures
        r == abs(v as int),
{
    if v < 0 {
        -v
    } else {
        v
    }
}

impl GraphicsData {
    /// No buffer yet; anchors at the origin, zoom one.
    pub fn new() -> (r: GraphicsData)
        ensures
            !r.buffered,
            r.buffer_size == (0u64, 0u64),
            r.window_size == (0u32, 0u32),
            r.prev_cam_pos == (Coordinate { x: 0, y: 0 }),
            r.refreshpos == (Coordinate { x: 0, y: 0 }),
            r.zoom == 1,
    {
        GraphicsData {
            buffered: false,
            buffer_size: (0, 0),
            window_size: (0, 0),
            prev_cam_pos: Coordinate::new(0, 0),
            zoom: 1,
            refreshpos: Coordinate::new(0, 0),
        }
    }

    /// Both anchors lie in the accepted range, and the buffer is no larger
    /// than a window with its margin can make it.
    pub open spec fn wf(&self) -> bool {
        &&& in_world(self.prev_cam_pos)
        &&& in_world(self.refreshpos)
        &&& self.buffer_size.0 < 0x4_0000_0000
        &&& self.buffer_size.1 < 0x4_0000_0000
    }

    /// Decides what happens to the buffer in a frame with the camera at
    /// `camera`, a window of `window` pixels and `scale` pixels to a world unit,
    /// and moves the anchors accordingly.
    ///
    /// The buffer is drawn anew when it must be (see `must_redraw`); both
    /// anchors then move to the camera. Otherwise, when the camera moved a
    /// whole unit from `prev_cam_pos` on either axis, the buffer is shifted by
    /// that displacement and only `prev_cam_pos` moves to the camera; else it
    /// is kept and nothing moves.
    pub fn update_tile_buffer(&mut self, camera: Coordinate, window: (u32, u32), scale: u32) -> (r: BufferAction)
        requires
            old(self).wf(),
            in_world(camera),
        ensures
            final(self).wf(),
            final(self).buffered,
            final(self).zoom == old(self).zoom,
            must_redraw(*old(self), camera, window, scale) ==> {
                &&& r == BufferAction::Redraw
                &&& final(self).prev_cam_pos == camera
                &&& final(self).refreshpos == camera
                &&& final(self).buffer_size == buffer_size_for(window, scale)
                &&& final(self).window_size == window
            },
            !must_redraw(*old(self), camera, window, scale) && moved(old(self).prev_cam_pos, camera) ==> {
                &&& r == (BufferAction::Shift {
                    dx: (camera.x - old(self).prev_cam_pos.x) as i64,
                    dy: (camera.y - old(self).prev_cam_pos.y) as i64,
                })
                &&& final(self).prev_cam_pos == camera
                &&& final(self).refreshpos == old(self).refreshpos
                &&& final(self).buffer_size == old(self).buffer_size
                &&& final(self).window_size == old(self).window_size
            },
            !must_redraw(*old(self), camera, window, scale) && !moved(old(self).prev_cam_pos, camera) ==> {
                &&& r == BufferAction::Reuse
                &&& final(self).prev_cam_pos == old(self).prev_cam_pos
                &&& final(self).refreshpos == old(self).refreshpos
                &&& final(self).buffer_size == old(self).buffer_size
                &&& final(self).window_size == old(self).window_size
            },
    {
        let margin = EXTRASIZE as u64 * scale as u64;
        assert(margin == EXTRASIZE * scale);
        let size = (window.0 as u64 + margin, window.1 as u64 + margin);
        let dx = camera.x - self.prev_cam_pos.x;
        let dy = camera.y - self.prev_cam_pos.y;
        let rx = camera.x - self.refreshpos.x;
        let ry = camera.y - self.refreshpos.y;
        let far = abs_i64(dx) > REFRESH_DISTANCE || abs_i64(dy) > REFRESH_DISTANCE || abs_i64(rx) > REFRESH_DISTANCE
            || abs_i64(ry) > REFRESH_DISTANCE;
        let resized = self.buffer_size.0 != size.0 || self.buffer_size.1 != size.1;
        if far || resized || !self.buffered {
            self.buffered = true;
            self.buffer_size = size;
            self.window_size = window;
            self.prev_cam_pos = camera;
            self.refreshpos = camera;
            BufferAction::Redraw
        } else if abs_i64(dx) >= SUBUNITS || abs_i64(dy) >= SUBUNITS {
            self.prev_cam_pos = camera;
            BufferAction::Shift { dx, dy }
        } else {
            BufferAction::Reuse
        }
    }

    /// Where the buffer is drawn on the screen, relative to the window's
    /// corner, in steps of a pixel: `scale * (prev_cam_pos - camera - EXTRASIZE / 2)`.
    pub fn buffer_draw_position(&self, camera: Coordinate, scale: u32) -> (r: ScreenCoord)
        requires
            self.wf(),
            in_world(camera),
            i64::MIN <= scale * (self.prev_cam_pos.x - camera.x - EXTRASIZE * SUBUNITS / 2) <= i64::MAX,
            i64::MIN <= scale * (self.prev_cam_pos.y - camera.y - EXTRASIZE * SUBUNITS / 2) <= i64::MAX,
        ensures
            r.x == scale * (self.prev_cam_pos.x - camera.x - EXTRASIZE * SUBUNITS / 2),
            r.y == scale * (self.prev_cam_pos.y - camera.y - EXTRASIZE * SUBUNITS / 2),
    {
        let ox = self.prev_cam_pos.x - camera.x - EXTRASIZE * SUBUNITS / 2;
        let oy = self.prev_cam_pos.y - camera.y - EXTRASIZE * SUBUNITS / 2;
        ScreenCoord::new(scale as i64 * ox, scale as i64 * oy)
    }
}

/// One tile to draw into the buffer: its texture and its corner relative to
/// the buffer's centre, in steps of a pixel.
#[derive(Debug, Copy, Clone, PartialEq, Eq, Structural)]
pub struct TileDraw {
    pub texture: u32,
    pub x: i64,
    pub y: i64,
}

/// Half the window, in world steps, rounded up.
pub open spec fn half_view(window: u32, scale: u32) -> int {
    (window * SUBUNITS + 2 * scale - 1) / (2 * scale as int)
}

/// First chunk, along one axis, of the range that a full drawing covers for
/// a camera at `cam`: the view and its margin, rounded out to whole units.
pub open spec fn first_covered(cam: int, window: u32, scale: u32) -> int {
    floor_div(round_out(cam - EXTRASIZE * SUBUNITS - half_view(window, scale)), CHUNK_SIZE as int)
}

/// Last chunk, along one axis, of the range that a full drawing covers.
pub open spec fn last_covered(cam: int, window: u32, scale: u32) -> int {
    floor_div(round_out(cam + EXTRASIZE * SUBUNITS + half_view(window, scale)), CHUNK_SIZE as int)
}

/// Whether a full drawing around `cam` covers the chunk `c`.
pub open spec fn covers(g: GraphicsData, cam: Coordinate, scale: u32, c: ChunkCoord) -> bool {
    &&& first_covered(cam.x as int, g.window_size.0, scale) <= c.x <= last_covered(cam.x as int, g.window_size.0, scale)
    &&& first_covered(cam.y as int, g.window_size.1, scale) <= c.y <= last_covered(cam.y as int, g.window_size.1, scale)
}

/// Buffer position, in steps of a pixel, of tile `i` of chunk `c` along
/// one axis: the tile's world position less the anchor, times the scale.
pub open spec fn tile_pixel(chunk: int, local: int, anchor: int, scale: u32) -> int {
    ((chunk * CHUNK_SIZE + local) * SUBUNITS - anchor) * scale
}

/// Whether a tile of `scale` pixels with its corner at `(px, py)`, covering
/// `[px, px + scale]` on each axis, overlaps the buffer, which spans
/// `[-size / 2, size / 2]` around the anchor. A tile whose footprint lies
/// wholly outside the buffer does not.
pub open spec fn in_buffer(size: (u64, u64), scale: u32, px: int, py: int) -> bool {
    let m = scale * SUBUNITS;
    let hx = size.0 * SUBUNITS / 2;
    let hy = size.1 * SUBUNITS / 2;
    !(px >= hx || px + m <= -hx || py >= hy || py + m <= -hy)
}

/// Whether a tile of `scale` pixels with its corner at `(px, py)` lies wholly
/// inside the buffer.
pub open spec fn within_buffer(size: (u64, u64), scale: u32, px: int, py: int) -> bool {
    let m = scale * SUBUNITS;
    let hx = size.0 * SUBUNITS / 2;
    let hy = size.1 * SUBUNITS / 2;
    px >= -hx && px + m <= hx && py >= -hy && py + m <= hy
}

pub open spec fn tile_px(g: GraphicsData, scale: u32, c: ChunkCoord, i: int) -> int {
    tile_pixel(c.x as int, i / CHUNK_SIZE as int, g.prev_cam_pos.x as int, scale)
}

pub open spec fn tile_py(g: GraphicsData, scale: u32, c: ChunkCoord, i: int) -> int {
    tile_pixel(c.y as int, i % CHUNK_SIZE as int, g.prev_cam_pos.y as int, scale)
}

/// Whether tile `i` of the chunk at `c` reaches into a buffer of `size`
/// pixels centred on `anchor`.
pub open spec fn visible_from(anchor: Coordinate, size: (u64, u64), scale: u32, c: ChunkCoord, i: int) -> bool {
    in_buffer(
        size,
        scale,
        tile_pixel(c.x as int, i / CHUNK_SIZE as int, anchor.x as int, scale),
        tile_pixel(c.y as int, i % CHUNK_SIZE as int, anchor.y as int, scale),
    )
}

/// Whether tile `i` of the chunk at `c` lies wholly inside a buffer of `size`
/// pixels centred on `anchor`.
pub open spec fn inside_from(anchor: Coordinate, size: (u64, u64), scale: u32, c: ChunkCoord, i: int) -> bool {
    within_buffer(
        size,
        scale,
        tile_pixel(c.x as int, i / CHUNK_SIZE as int, anchor.x as int, scale),
        tile_pixel(c.y as int, i % CHUNK_SIZE as int, anchor.y as int, scale),
    )
}

/// Whether tile `i` of the chunk at `c` reaches into the buffer.
pub open spec fn visible(g: GraphicsData, scale: u32, c: ChunkCoord, i: int) -> bool {
    visible_from(g.prev_cam_pos, g.buffer_size, scale, c, i)
}

/// Whether tile `i` of the chunk at `c` is to be drawn: it reaches into the
/// buffer, and, where `exclude` gives the anchor of the buffer before a shift,
/// it did not lie wholly inside that one, so that the shifted old content
/// does not already hold all of it.
pub open spec fn wanted(g: GraphicsData, scale: u32, exclude: Option<Coordinate>, c: ChunkCoord, i: int) -> bool {
    visible(g, scale, c, i) && match exclude {
        Some(a) => !inside_from(a, g.buffer_size, scale, c, i),
        None => true,
    }
}

/// How tile `i` of `chunk` is drawn into the buffer.
pub open spec fn tile_draw(g: GraphicsData, scale: u32, chunk: Chunk, i: int) -> TileDraw {
    TileDraw {
        texture: chunk.tiles@[i].texture,
        x: tile_px(g, scale, chunk.position, i) as i64,
        y: tile_py(g, scale, chunk.position, i) as i64,
    }
}

/// Whether `d` draws a wanted tile of `chunk`.
pub open spec fn draws_tile_of(g: GraphicsData, scale: u32, exclude: Option<Coordinate>, chunk: Chunk, d: TileDraw) -> bool {
    exists|i: int|
        0 <= i < CHUNK_TILES && wanted(g, scale, exclude, chunk.position, i) && d == #[trigger] tile_draw(
            g,
            scale,
            chunk,
            i,
        )
}

/// Whether tile `i` of the chunk at `pos` reaches into a buffer of `size`
/// pixels centred on `anchor`, whether it lies wholly inside it, and its
/// position in that buffer.
fn tile_in_buffer(pos: ChunkCoord, i: usize, anchor: Coordinate, size: (u64, u64), scale: u32) -> (r: (
    bool,
    bool,
    i128,
    i128,
))
    requires
        i < CHUNK_TILES,
        in_world(anchor),
        size.0 < 0x4_0000_0000,
        size.1 < 0x4_0000_0000,
    ensures
        r.0 == visible_from(anchor, size, scale, pos, i as int),
        r.1 == inside_from(anchor, size, scale, pos, i as int),
        r.2 == tile_pixel(pos.x as int, i as int / CHUNK_SIZE as int, anchor.x as int, scale),
        r.3 == tile_pixel(pos.y as int, i as int % CHUNK_SIZE as int, anchor.y as int, scale),
        r.0 ==> i64::MIN <= r.2 <= i64::MAX && i64::MIN <= r.3 <= i64::MAX,
{
    let n = CHUNK_SIZE as i128;
    let unit = SUBUNITS as i128;
    let sc = scale as i128;
    let hx = size.0 as i128 * unit / 2;
    let hy = size.1 as i128 * unit / 2;
    let m = sc * unit;
    let tx = (i / CHUNK_SIZE) as i128;
    let ty = (i % CHUNK_SIZE) as i128;
    let wx = (pos.x as i128 * n + tx) * unit - anchor.x as i128;
    let wy = (pos.y as i128 * n + ty) * unit - anchor.y as i128;
    proof {
        assert(-0x1_0000_0000_0000_0000_0000 <= wx * sc <= 0x1_0000_0000_0000_0000_0000) by (nonlinear_arith)
            requires
                -0x1_0000_0000_0000 < wx < 0x1_0000_0000_0000,
                0 <= sc < 0x1_0000_0000,
        ;
        assert(-0x1_0000_0000_0000_0000_0000 <= wy * sc <= 0x1_0000_0000_0000_0000_0000) by (nonlinear_arith)
            requires
                -0x1_0000_0000_0000 < wy < 0x1_0000_0000_0000,
                0 <= sc < 0x1_0000_0000,
        ;
    }
    let px = wx * sc;
    let py = wy * sc;
    let overlaps = !(px >= hx || px + m <= -hx || py >= hy || py + m <= -hy);
    let inside = px >= -hx && px + m <= hx && py >= -hy && py + m <= hy;
    (overlaps, inside, px, py)
}

/// Two visible tiles drawn at the same position are the same tile.
proof fn lemma_draw_injective(g: GraphicsData, scale: u32, c1: ChunkCoord, i1: int, c2: ChunkCoord, i2: int)
    requires
        g.wf(),
        scale > 0,
        0 <= i1 < CHUNK_TILES,
        0 <= i2 < CHUNK_TILES,
        visible(g, scale, c1, i1),
        visible(g, scale, c2, i2),
        tile_px(g, scale, c1, i1) as i64 == tile_px(g, scale, c2, i2) as i64,
        tile_py(g, scale, c1, i1) as i64 == tile_py(g, scale, c2, i2) as i64,
    ensures
        c1 == c2,
        i1 == i2,
{
    let k = scale as int;
    let ax = g.prev_cam_pos.x as int;
    let ay = g.prev_cam_pos.y as int;
    let x1 = c1.x * 32 + i1 / 32;
    let x2 = c2.x * 32 + i2 / 32;
    let y1 = c1.y * 32 + i1 % 32;
    let y2 = c2.y * 32 + i2 % 32;
    assert(tile_px(g, scale, c1, i1) == tile_px(g, scale, c2, i2));
    assert(tile_py(g, scale, c1, i1) == tile_py(g, scale, c2, i2));
    assert(x1 == x2) by (nonlinear_arith)
        requires
            (x1 * 256 - ax) * k == (x2 * 256 - ax) * k,
            k > 0,
    ;
    assert(y1 == y2) by (nonlinear_arith)
        requires
            (y1 * 256 - ay) * k == (y2 * 256 - ay) * k,
            k > 0,
    ;
    lemma_fundamental_div_mod(i1, 32);
    lemma_fundamental_div_mod(i2, 32);
    vstd::arithmetic::div_mod::lemma_mod_bound(i1, 32);
    vstd::arithmetic::div_mod::lemma_mod_bound(i2, 32);
    lemma_div_pos_is_pos(i1, 32);
    lemma_div_pos_is_pos(i2, 32);
    assert(i1 / 32 < 32);
    assert(i2 / 32 < 32);
    vstd::arithmetic::div_mod::lemma_fundamental_div_mod_converse(x1, 32, c1.x as int, i1 / 32);
    vstd::arithmetic::div_mod::lemma_fundamental_div_mod_converse(x2, 32, c2.x as int, i2 / 32);
    vstd::arithmetic::div_mod::lemma_fundamental_div_mod_converse(y1, 32, c1.y as int, i1 % 32);
    vstd::arithmetic::div_mod::lemma_fundamental_div_mod_converse(y2, 32, c2.y as int, i2 % 32);
}

/// Whether `d` draws a wanted tile of `chunk` with an index below `n`.
pub open spec fn drawn_below(g: GraphicsData, scale: u32, exclude: Option<Coordinate>, chunk: Chunk, d: TileDraw, n: int) -> bool {
    exists|i: int|
        0 <= i < n && wanted(g, scale, exclude, chunk.position, i) && d == #[trigger] tile_draw(g, scale, chunk, i)
}

/// Appends the drawing of each wanted tile of `chunk`.
fn plan_chunk(chunk: &Chunk, g: &GraphicsData, exclude: Option<Coordinate>, scale: u32, out: &mut Vec<TileDraw>)
    requires
        chunk.wf(),
        g.wf(),
        scale > 0,
        exclude is Some ==> in_world(exclude->0),
        old(out)@.no_duplicates(),
        forall|i: int|
            0 <= i < CHUNK_TILES && wanted(*g, scale, exclude, chunk.position, i) ==> !old(out)@.contains(
                #[trigger] tile_draw(*g, scale, *chunk, i),
            ),
    ensures
        final(out)@.no_duplicates(),
        final(out)@.len() >= old(out)@.len(),
        final(out)@.subrange(0, old(out)@.len() as int) == old(out)@,
        forall|k: int|
            old(out)@.len() <= k < final(out)@.len() ==> draws_tile_of(*g, scale, exclude, *chunk, #[trigger] final(out)@[k]),
        forall|i: int|
            0 <= i < CHUNK_TILES && wanted(*g, scale, exclude, chunk.position, i) ==> final(out)@.contains(
                #[trigger] tile_draw(*g, scale, *chunk, i),
            ),
{
    let ghost start = out@;
    let mut i: usize = 0;
    while i < CHUNK_TILES
        invariant
            chunk.wf(),
            g.wf(),
            scale > 0,
            exclude is Some ==> in_world(exclude->0),
            i <= CHUNK_TILES,
            forall|j: int|
                0 <= j < CHUNK_TILES && wanted(*g, scale, exclude, chunk.position, j) ==> !start.contains(
                    #[trigger] tile_draw(*g, scale, *chunk, j),
                ),
            out@.no_duplicates(),
            forall|k: int|
                start.len() <= k < out@.len() ==> drawn_below(*g, scale, exclude, *chunk, #[trigger] out@[k], i as int),
            out@.len() >= start.len(),
            out@.subrange(0, start.len() as int) == start,
            forall|k: int|
                start.len() <= k < out@.len() ==> draws_tile_of(*g, scale, exclude, *chunk, #[trigger] out@[k]),
            forall|j: int|
                0 <= j < i && wanted(*g, scale, exclude, chunk.position, j) ==> out@.contains(
                    #[trigger] tile_draw(*g, scale, *chunk, j),
                ),
        decreases CHUNK_TILES - i,
    {
        let (overlaps, _, px, py) = tile_in_buffer(chunk.position, i, g.prev_cam_pos, g.buffer_size, scale);
        let keep = match exclude {
            Some(a) => overlaps && !tile_in_buffer(chunk.position, i, a, g.buffer_size, scale).1,
            None => overlaps,
        };
        let ghost prev = out@;
        if keep {
            let d = TileDraw { texture: chunk.tiles[i].texture, x: px as i64, y: py as i64 };
            proof {
                assert(d == tile_draw(*g, scale, *chunk, i as int));
                assert(draws_tile_of(*g, scale, exclude, *chunk, d));
            }
            proof {
                if prev.contains(d) {
                    let k = choose|k: int| 0 <= k < prev.len() && prev[k] == d;
                    if k < start.len() {
                        assert(prev.subrange(0, start.len() as int)[k] == prev[k]);
                        assert(start.contains(tile_draw(*g, scale, *chunk, i as int)));
                    } else {
                        assert(drawn_below(*g, scale, exclude, *chunk, prev[k], i as int));
                        let j = choose|j: int|
                            0 <= j < i && wanted(*g, scale, exclude, chunk.position, j) && prev[k] == #[trigger] tile_draw(
                                *g,
                                scale,
                                *chunk,
                                j,
                            );
                        lemma_draw_injective(*g, scale, chunk.position, j, chunk.position, i as int);
                    }
                }
            }
            out.push(d);
            proof {
                assert(out@[prev.len() as int] == d);
                assert(out@.no_duplicates()) by {
                    assert forall|a: int, b: int| 0 <= a < out@.len() && 0 <= b < out@.len() && a != b implies out@[a]
                        != out@[b] by {
                        if a == prev.len() as int {
                            assert(!prev.contains(out@[a]));
                            assert(out@[b] == prev[b]);
                        } else if b == prev.len() as int {
                            assert(!prev.contains(out@[b]));
                            assert(out@[a] == prev[a]);
                        } else {
                            assert(out@[a] == prev[a]);
                            assert(out@[b] == prev[b]);
                        }
                    }
                }
                assert forall|k: int| start.len() <= k < out@.len() implies drawn_below(
                    *g,
                    scale,
                    exclude,
                    *chunk,
                    #[trigger] out@[k],
                    i + 1,
                ) by {
                    if k < prev.len() {
                        assert(out@[k] == prev[k]);
                        let j = choose|j: int|
                            0 <= j < i && wanted(*g, scale, exclude, chunk.position, j) && prev[k] == #[trigger] tile_draw(
                                *g,
                                scale,
                                *chunk,
                                j,
                            );
                        assert(out@[k] == tile_draw(*g, scale, *chunk, j));
                    } else {
                        assert(out@[k] == tile_draw(*g, scale, *chunk, i as int));
                    }
                }
                assert forall|j: int|
                    0 <= j <= i && wanted(*g, scale, exclude, chunk.position, j) implies out@.contains(
                    #[trigger] tile_draw(*g, scale, *chunk, j),
                ) by {
                    if j < i {
                        let k = choose|k: int| 0 <= k < prev.len() && prev[k] == tile_draw(*g, scale, *chunk, j);
                        assert(out@[k] == prev[k]);
                    } else {
                        assert(out@[prev.len() as int] == tile_draw(*g, scale, *chunk, j));
                    }
                }
                assert(out@.subrange(0, start.len() as int) =~= start) by {
                    assert(prev.subrange(0, start.len() as int) == start);
                }
                assert forall|k: int| start.len() <= k < out@.len() implies draws_tile_of(
                    *g,
                    scale,
                    exclude,
                    *chunk,
                    #[trigger] out@[k],
                ) by {
                    if k < prev.len() {
                        assert(out@[k] == prev[k]);
                    }
                }
            }
        } else {
            proof {
                assert forall|k: int| start.len() <= k < out@.len() implies drawn_below(
                    *g,
                    scale,
                    exclude,
                    *chunk,
                    #[trigger] out@[k],
                    i + 1,
                ) by {
                    let j = choose|j: int|
                        0 <= j < i && wanted(*g, scale, exclude, chunk.position, j) && out@[k] == #[trigger] tile_draw(
                            *g,
                            scale,
                            *chunk,
                            j,
                        );
                    assert(out@[k] == tile_draw(*g, scale, *chunk, j));
                }
            }
        }
        i = i + 1;
    }
}

/// Whether `d` draws a wanted tile of a stored chunk that a full drawing
/// around the camera covers.
pub open spec fn planned<G: Generator>(
    surface: &Surface<G>,
    g: GraphicsData,
    scale: u32,
    exclude: Option<Coordinate>,
    d: TileDraw,
) -> bool {
    exists|c: ChunkCoord|
        covers(g, surface.camera(), scale, c) && surface.chunk_at(c) is Some && #[trigger] draws_tile_of(
            g,
            scale,
            exclude,
            surface.chunk_at(c)->0,
            d,
        )
}
/// Whether `d` draws a wanted tile of a stored, covered chunk that comes before
/// `(cx, cy)` in the order of columns, then rows.
pub open spec fn planned_before<G: Generator>(
    surface: &Surface<G>,
    g: GraphicsData,
    scale: u32,
    exclude: Option<Coordinate>,
    d: TileDraw,
    cx: int,
    cy: int,
) -> bool {
    exists|c: ChunkCoord|
        covers(g, surface.camera(), scale, c) && (c.x < cx || (c.x == cx && c.y < cy)) && surface.chunk_at(c) is Some
            && #[trigger] draws_tile_of(g, scale, exclude, surface.chunk_at(c)->0, d)
}

proof fn lemma_prefix_contains(a: Seq<TileDraw>, b: Seq<TileDraw>)
    requires
        b.len() >= a.len(),
        b.subrange(0, a.len() as int) == a,
    ensures
        forall|d: TileDraw| a.contains(d) ==> #[trigger] b.contains(d),
{
    assert forall|d: TileDraw| a.contains(d) implies #[trigger] b.contains(d) by {
        let k = choose|k: int| 0 <= k < a.len() && a[k] == d;
        assert(b.subrange(0, a.len() as int)[k] == b[k]);
    }
}

/// The covered chunk range stays well inside `i32` for cameras in the world.
proof fn lemma_covered_bounds(cam: int, window: u32, scale: u32)
    requires
        -WORLD_LIMIT <= cam <= WORLD_LIMIT,
        scale > 0,
    ensures
        0 <= half_view(window, scale) < 0x200_0000_0000,
        -0x2000_0000 <= first_covered(cam, window, scale) <= 0x2000_0000,
        -0x2000_0000 <= last_covered(cam, window, scale) <= 0x2000_0000,
{
    let a = window * SUBUNITS + 2 * scale - 1;
    lemma_div_pos_is_pos(a, 2 * scale as int);
    lemma_div_is_ordered_by_denominator(a, 1, 2 * scale as int);
    lemma_round_out_bounds(cam - EXTRASIZE * SUBUNITS - half_view(window, scale));
    lemma_round_out_bounds(cam + EXTRASIZE * SUBUNITS + half_view(window, scale));
    lemma_div_is_ordered(-0x4_0000_0000, round_out(cam - EXTRASIZE * SUBUNITS - half_view(window, scale)), 32);
    lemma_div_is_ordered(round_out(cam - EXTRASIZE * SUBUNITS - half_view(window, scale)), 0x4_0000_0000, 32);
    lemma_div_is_ordered(-0x4_0000_0000, round_out(cam + EXTRASIZE * SUBUNITS + half_view(window, scale)), 32);
    lemma_div_is_ordered(round_out(cam + EXTRASIZE * SUBUNITS + half_view(window, scale)), 0x4_0000_0000, 32);
}

proof fn lemma_round_out_bounds(v: int)
    requires
        -0x400_0000_0000 <= v <= 0x400_0000_0000,
    ensures
        -0x4_0000_0000 <= round_out(v) <= 0x4_0000_0000,
{
    if v < 0 {
        lemma_div_is_ordered(-v + SUBUNITS - 1, 0x400_0000_0000 + SUBUNITS - 1, SUBUNITS as int);
        lemma_div_pos_is_pos(-v + SUBUNITS - 1, SUBUNITS as int);
    } else {
        lemma_div_is_ordered(v + SUBUNITS - 1, 0x400_0000_0000 + SUBUNITS - 1, SUBUNITS as int);
        lemma_div_pos_is_pos(v + SUBUNITS - 1, SUBUNITS as int);
    }
}

/// The drawings of the wanted tiles (see `wanted`) of the stored chunks that
/// the view around the surface's camera covers, positioned relative to the
/// buffer's anchor. Every returned drawing is such a tile, and every such tile
/// is returned.
fn plan_tiles<G: Generator>(surface: &Surface<G>, graphicsdata: &GraphicsData, exclude: Option<Coordinate>, scale: u32) -> (r: Vec<TileDraw>)
    requires
        surface.wf(),
        graphicsdata.wf(),
        in_world(surface.camera()),
        exclude is Some ==> in_world(exclude->0),
        scale > 0,
    ensures
        r@.no_duplicates(),
        forall|k: int| 0 <= k < r@.len() ==> planned(surface, *graphicsdata, scale, exclude, #[trigger] r@[k]),
        forall|c: ChunkCoord, i: int|
            covers(*graphicsdata, surface.camera(), scale, c) && surface.chunk_at(c) is Some && 0 <= i < CHUNK_TILES
                && wanted(*graphicsdata, scale, exclude, c, i) ==> r@.contains(
                #[trigger] tile_draw(*graphicsdata, scale, surface.chunk_at(c)->0, i),
            ),
{
    let g = graphicsdata;
    let cam = surface.camera_pos();
    let ghost gv = *g;
    proof {
        lemma_covered_bounds(cam.x as int, g.window_size.0, scale);
        lemma_covered_bounds(cam.y as int, g.window_size.1, scale);
    }
    let two_scale = 2 * scale as i64;
    let half_x = (g.window_size.0 as i64 * SUBUNITS + two_scale - 1) / two_scale;
    let half_y = (g.window_size.1 as i64 * SUBUNITS + two_scale - 1) / two_scale;
    let margin = EXTRASIZE * SUBUNITS;
    let n = CHUNK_SIZE as i64;
    let c0x = floor_div_i64(signed_ceil(cam.x - margin - half_x), n);
    let c1x = floor_div_i64(signed_ceil(cam.x + margin + half_x), n);
    let c0y = floor_div_i64(signed_ceil(cam.y - margin - half_y), n);
    let c1y = floor_div_i64(signed_ceil(cam.y + margin + half_y), n);
    let mut out: Vec<TileDraw> = Vec::new();
    let mut cx = c0x;
    while cx <= c1x
        invariant
            surface.wf(),
            g.wf(),
            exclude is Some ==> in_world(exclude->0),
            gv == *g,
            cam == surface.camera(),
            c0x == first_covered(cam.x as int, g.window_size.0, scale),
            c1x == last_covered(cam.x as int, g.window_size.0, scale),
            c0y == first_covered(cam.y as int, g.window_size.1, scale),
            c1y == last_covered(cam.y as int, g.window_size.1, scale),
            -0x2000_0000 <= c0x <= 0x2000_0000,
            -0x2000_0000 <= c1x <= 0x2000_0000,
            -0x2000_0000 <= c0y <= 0x2000_0000,
            -0x2000_0000 <= c1y <= 0x2000_0000,
            c0x <= cx,
            cx <= c1x + 1 || cx == c0x,
            scale > 0,
            out@.no_duplicates(),
            forall|k: int|
                0 <= k < out@.len() ==> planned_before(surface, gv, scale, exclude, #[trigger] out@[k], cx as int, c0y as int),
            forall|k: int| 0 <= k < out@.len() ==> planned(surface, gv, scale, exclude, #[trigger] out@[k]),
            forall|c: ChunkCoord, i: int|
                covers(gv, cam, scale, c) && c.x < cx && surface.chunk_at(c) is Some && 0 <= i < CHUNK_TILES
                    && wanted(gv, scale, exclude, c, i) ==> out@.contains(
                    #[trigger] tile_draw(gv, scale, surface.chunk_at(c)->0, i),
                ),
        decreases c1x + 1 - cx,
    {
        let mut cy = c0y;
        while cy <= c1y
            invariant
                surface.wf(),
                g.wf(),
                exclude is Some ==> in_world(exclude->0),
                gv == *g,
                cam == surface.camera(),
                c0x == first_covered(cam.x as int, g.window_size.0, scale),
                c1x == last_covered(cam.x as int, g.window_size.0, scale),
                c0y == first_covered(cam.y as int, g.window_size.1, scale),
                c1y == last_covered(cam.y as int, g.window_size.1, scale),
                -0x2000_0000 <= c0y <= 0x2000_0000,
                -0x2000_0000 <= c1y <= 0x2000_0000,
                c0x <= cx <= c1x,
                -0x2000_0000 <= cx <= 0x2000_0000,
                c0y <= cy,
                cy <= c1y + 1 || cy == c0y,
                scale > 0,
                out@.no_duplicates(),
                forall|k: int|
                    0 <= k < out@.len() ==> planned_before(surface, gv, scale, exclude, #[trigger] out@[k], cx as int, cy as int),
                forall|k: int| 0 <= k < out@.len() ==> planned(surface, gv, scale, exclude, #[trigger] out@[k]),
                forall|c: ChunkCoord, i: int|
                    covers(gv, cam, scale, c) && (c.x < cx || (c.x == cx && c.y < cy)) && surface.chunk_at(c) is Some
                        && 0 <= i < CHUNK_TILES && wanted(gv, scale, exclude, c, i) ==> out@.contains(
                        #[trigger] tile_draw(gv, scale, surface.chunk_at(c)->0, i),
                    ),
            decreases c1y + 1 - cy,
        {
            let coord = ChunkCoord::new(cx as i32, cy as i32);
            match surface.get_chunk(coord) {
                Some(ch) => {
                    let ghost before = out@;
                    proof {
                        surface.lemma_chunk_at_position(coord);
                        assert forall|i: int|
                            0 <= i < CHUNK_TILES && wanted(gv, scale, exclude, ch.position, i) implies !out@.contains(
                            #[trigger] tile_draw(gv, scale, *ch, i),
                        ) by {
                            if out@.contains(tile_draw(gv, scale, *ch, i)) {
                                let k = choose|k: int| 0 <= k < out@.len() && out@[k] == tile_draw(gv, scale, *ch, i);
                                assert(planned_before(surface, gv, scale, exclude, out@[k], cx as int, cy as int));
                                let c2 = choose|c2: ChunkCoord|
                                    covers(gv, cam, scale, c2) && (c2.x < cx || (c2.x == cx && c2.y < cy))
                                        && surface.chunk_at(c2) is Some && #[trigger] draws_tile_of(
                                        gv,
                                        scale,
                                        exclude,
                                        surface.chunk_at(c2)->0,
                                        out@[k],
                                    );
                                surface.lemma_chunk_at_position(c2);
                                let j = choose|j: int|
                                    0 <= j < CHUNK_TILES && wanted(gv, scale, exclude, c2, j) && out@[k] == #[trigger] tile_draw(
                                        gv,
                                        scale,
                                        surface.chunk_at(c2)->0,
                                        j,
                                    );
                                lemma_draw_injective(gv, scale, c2, j, coord, i);
                            }
                        }
                    }
                    plan_chunk(ch, g, exclude, scale, &mut out);
                    proof {
                        assert forall|k: int| 0 <= k < out@.len() implies planned_before(
                            surface,
                            gv,
                            scale,
                            exclude,
                            #[trigger] out@[k],
                            cx as int,
                            cy + 1,
                        ) by {
                            if k < before.len() {
                                assert(out@.subrange(0, before.len() as int)[k] == out@[k]);
                                assert(planned_before(surface, gv, scale, exclude, before[k], cx as int, cy as int));
                                let c2 = choose|c2: ChunkCoord|
                                    covers(gv, cam, scale, c2) && (c2.x < cx || (c2.x == cx && c2.y < cy))
                                        && surface.chunk_at(c2) is Some && #[trigger] draws_tile_of(
                                        gv,
                                        scale,
                                        exclude,
                                        surface.chunk_at(c2)->0,
                                        before[k],
                                    );
                                assert(draws_tile_of(gv, scale, exclude, surface.chunk_at(c2)->0, out@[k]));
                            } else {
                                assert(covers(gv, cam, scale, coord));
                                assert(draws_tile_of(gv, scale, exclude, surface.chunk_at(coord)->0, out@[k]));
                            }
                        }
                        lemma_prefix_contains(before, out@);
                        assert(covers(gv, cam, scale, coord));
                        assert forall|k: int| 0 <= k < out@.len() implies planned(surface, gv, scale, exclude, #[trigger] out@[k]) by {
                            if k < before.len() {
                                assert(out@.subrange(0, before.len() as int)[k] == out@[k]);
                            } else {
                                assert(draws_tile_of(gv, scale, exclude, surface.chunk_at(coord)->0, out@[k]));
                            }
                        }
                        assert forall|c: ChunkCoord, i: int|
                            covers(gv, cam, scale, c) && (c.x < cx || (c.x == cx && c.y < cy + 1)) && surface.chunk_at(c) is Some
                                && 0 <= i < CHUNK_TILES && wanted(gv, scale, exclude, c, i) implies out@.contains(
                                #[trigger] tile_draw(gv, scale, surface.chunk_at(c)->0, i),
                            ) by {
                            if c.x < cx || (c.x == cx && c.y < cy) {
                                assert(before.contains(tile_draw(gv, scale, surface.chunk_at(c)->0, i)));
                            } else {
                                assert(c == coord);
                            }
                        }
                    }
                },
                None => {
                    proof {
                        assert forall|k: int| 0 <= k < out@.len() implies planned_before(
                            surface,
                            gv,
                            scale,
                            exclude,
                            #[trigger] out@[k],
                            cx as int,
                            cy + 1,
                        ) by {
                            let c2 = choose|c2: ChunkCoord|
                                covers(gv, cam, scale, c2) && (c2.x < cx || (c2.x == cx && c2.y < cy))
                                    && surface.chunk_at(c2) is Some && #[trigger] draws_tile_of(
                                    gv,
                                    scale,
                                    exclude,
                                    surface.chunk_at(c2)->0,
                                    out@[k],
                                );
                        }
                        assert forall|c: ChunkCoord, i: int|
                            covers(gv, cam, scale, c) && (c.x < cx || (c.x == cx && c.y < cy + 1)) && surface.chunk_at(c) is Some
                                && 0 <= i < CHUNK_TILES && wanted(gv, scale, exclude, c, i) implies out@.contains(
                                #[trigger] tile_draw(gv, scale, surface.chunk_at(c)->0, i),
                            ) by {
                            if c.x == cx && c.y == cy {
                                assert(c == coord);
                            }
                        }
                    }
                },
            }
            cy = cy + 1;
        }
        proof {
            assert forall|k: int| 0 <= k < out@.len() implies planned_before(
                surface,
                gv,
                scale,
                exclude,
                #[trigger] out@[k],
                cx + 1,
                c0y as int,
            ) by {
                let c2 = choose|c2: ChunkCoord|
                    covers(gv, cam, scale, c2) && (c2.x < cx || (c2.x == cx && c2.y < cy)) && surface.chunk_at(c2) is Some
                        && #[trigger] draws_tile_of(gv, scale, exclude, surface.chunk_at(c2)->0, out@[k]);
            }
        }
        cx = cx + 1;
    }
    out
}

/// The drawings of a full redraw of the buffer around the surface's camera,
/// for the state that a `Redraw` decision leaves (both anchors at the camera,
/// the buffer sized for the window): each tile of each stored chunk that the
/// view with its margin covers, and whose footprint overlaps the buffer,
/// positioned relative to the buffer's centre. Tiles wholly outside the buffer
/// are culled. Every returned drawing is such a tile, every such tile is
/// returned, and none twice.
pub fn redraw_tile_buffer<G: Generator>(surface: &Surface<G>, graphicsdata: &GraphicsData, scale: u32) -> (r: Vec<
    TileDraw,
>)
    requires
        surface.wf(),
        graphicsdata.wf(),
        in_world(surface.camera()),
        scale > 0,
        graphicsdata.prev_cam_pos == surface.camera(),
        graphicsdata.refreshpos == surface.camera(),
        graphicsdata.buffer_size == buffer_size_for(graphicsdata.window_size, scale),
    ensures
        r@.no_duplicates(),
        forall|k: int| 0 <= k < r@.len() ==> planned(surface, *graphicsdata, scale, None, #[trigger] r@[k]),
        forall|c: ChunkCoord, i: int|
            covers(*graphicsdata, surface.camera(), scale, c) && surface.chunk_at(c) is Some && 0 <= i < CHUNK_TILES
                && visible(*graphicsdata, scale, c, i) ==> r@.contains(
                #[trigger] tile_draw(*graphicsdata, scale, surface.chunk_at(c)->0, i),
            ),
{
    plan_tiles(surface, graphicsdata, None, scale)
}

/// The drawings that complete the buffer after a `Shift` decision moved the
/// anchor from `previous` to the camera: the tiles, of the stored chunks that
/// the view covers, whose footprint overlaps the buffer now but did not lie
/// wholly inside the buffer at `previous`. Those are the tiles of the strip
/// that the shift uncovered, together with the tiles that the old buffer
/// held only in part; drawn over the shifted old content, they complete it.
/// Every returned drawing is such a tile, every such tile is returned, and
/// none twice.
pub fn refresh_tile_buffer<G: Generator>(
    surface: &Surface<G>,
    graphicsdata: &GraphicsData,
    previous: Coordinate,
    scale: u32,
) -> (r: Vec<TileDraw>)
    requires
        surface.wf(),
        graphicsdata.wf(),
        in_world(surface.camera()),
        in_world(previous),
        scale > 0,
        graphicsdata.prev_cam_pos == surface.camera(),
        graphicsdata.buffer_size == buffer_size_for(graphicsdata.window_size, scale),
    ensures
        r@.no_duplicates(),
        forall|k: int| 0 <= k < r@.len() ==> planned(surface, *graphicsdata, scale, Some(previous), #[trigger] r@[k]),
        forall|c: ChunkCoord, i: int|
            covers(*graphicsdata, surface.camera(), scale, c) && surface.chunk_at(c) is Some && 0 <= i < CHUNK_TILES
                && visible(*graphicsdata, scale, c, i) && !inside_from(previous, graphicsdata.buffer_size, scale, c, i)
                ==> r@.contains(#[trigger] tile_draw(*graphicsdata, scale, surface.chunk_at(c)->0, i)),
{
    plan_tiles(surface, graphicsdata, Some(previous), scale)
}

} // verus!
