use tileworld::graphics::{
    signed_ceil, signed_floor, BufferAction, GraphicsData, ScreenCoord, ScreenWorldConverter,
};
use tileworld::world::{Coordinate, SUBUNITS};

const U: i64 = SUBUNITS;

#[test]
fn screen_round_trip() {
    let conv = ScreenWorldConverter {
        cam_pos: Coordinate::new(3 * U + 17, -5 * U),
        window_size: (1280, 720),
        scale: 10,
        offset: Coordinate::new(-U / 2, 7),
    };
    for &(x, y) in &[(0, 0), (U, 0), (-123456, 98765), (5 * U, 5 * U)] {
        let p = Coordinate::new(x, y);
        assert_eq!(conv.from_screen(conv.from_world(p)), p);
    }
    let plain = ScreenWorldConverter {
        cam_pos: Coordinate::new(0, 0),
        window_size: (100, 50),
        scale: 10,
        offset: Coordinate::new(0, 0),
    };
    assert_eq!(plain.from_world(Coordinate::new(U, -U)), ScreenCoord::new(60 * U, 15 * U));
    assert_eq!(plain.from_screen(ScreenCoord::new(50 * U, 25 * U)), Coordinate::new(0, 0));
}

#[test]
fn rounding_in_and_out() {
    assert_eq!(signed_floor(-3 * U / 2), -1);
    assert_eq!(signed_floor(3 * U / 2), 1);
    assert_eq!(signed_ceil(-3 * U / 2), -2);
    assert_eq!(signed_ceil(3 * U / 2), 2);
    assert_eq!(signed_ceil(2 * U), 2);
    assert_eq!(signed_floor(-2 * U), -2);
    assert_eq!(signed_ceil(0), 0);
}

fn anchored() -> GraphicsData {
    let mut g = GraphicsData::new();
    assert_eq!(g.update_tile_buffer(Coordinate::new(0, 0), (800, 600), 10), BufferAction::Redraw);
    g
}

#[test]
fn cache_redraws_when_far() {
    let mut g = anchored();
    let cam = Coordinate::new(11 * U, 0);
    assert_eq!(g.update_tile_buffer(cam, (800, 600), 10), BufferAction::Redraw);
    assert_eq!(g.prev_cam_pos, cam);
    assert_eq!(g.refreshpos, cam);
}

#[test]
fn cache_reused_below_one_unit() {
    let mut g = anchored();
    assert_eq!(g.update_tile_buffer(Coordinate::new(U / 2, 0), (800, 600), 10), BufferAction::Reuse);
    assert_eq!(g.prev_cam_pos, Coordinate::new(0, 0));
    assert_eq!(g.refreshpos, Coordinate::new(0, 0));
}

#[test]
fn cache_shifts_after_one_unit() {
    let mut g = anchored();
    assert_eq!(g.update_tile_buffer(Coordinate::new(2 * U, 0), (800, 600), 10), BufferAction::Shift { dx: 2 * U, dy: 0 });
    assert_eq!(g.prev_cam_pos, Coordinate::new(2 * U, 0));
    assert_eq!(g.refreshpos, Coordinate::new(0, 0));
}

#[test]
fn cache_redraws_when_refresh_anchor_stale() {
    let mut g = anchored();
    for k in 1..=10 {
        let a = g.update_tile_buffer(Coordinate::new(k * U, 0), (800, 600), 10);
        assert_eq!(a, BufferAction::Shift { dx: U, dy: 0 });
    }
    assert_eq!(g.update_tile_buffer(Coordinate::new(11 * U, 0), (800, 600), 10), BufferAction::Redraw);
}

#[test]
fn cache_redraws_on_resize() {
    let mut g = anchored();
    assert_eq!(g.buffer_size, (820, 620));
    assert_eq!(g.update_tile_buffer(Coordinate::new(0, 0), (1024, 600), 10), BufferAction::Redraw);
    assert_eq!(g.window_size, (1024, 600));
    assert_eq!(g.buffer_size, (1044, 620));
}

#[test]
fn buffer_position_follows_residual() {
    let mut g = anchored();
    g.update_tile_buffer(Coordinate::new(U / 4, 0), (800, 600), 10);
    let p = g.buffer_draw_position(Coordinate::new(U / 4, 0), 10);
    assert_eq!(p, ScreenCoord::new(10 * (-U / 4 - U), 10 * (-U)));
}

use tileworld::graphics::{redraw_tile_buffer, refresh_tile_buffer, TileDraw};
use tileworld::world::tile::TileManager;
use tileworld::world::worldgen::LabGen;
use tileworld::world::{ChunkCoord, Surface};

fn small_world() -> Surface<LabGen> {
    let mut tm = TileManager::new();
    tm.register_tile("grass", 1);
    tm.register_tile("grass1", 2);
    let mut s = Surface::new(LabGen);
    s.gen_chunk(ChunkCoord::new(0, 0), &tm);
    s
}

#[test]
fn full_redraw_culls_to_buffer() {
    let s = small_world();
    let mut g = GraphicsData::new();
    assert_eq!(g.update_tile_buffer(s.camera_pos(), (20, 20), 10), BufferAction::Redraw);
    assert_eq!(g.buffer_size, (40, 40));
    let tiles = redraw_tile_buffer(&s, &g, 10);
    assert_eq!(tiles.len(), 4);
    assert!(tiles.contains(&TileDraw { texture: 1, x: 0, y: 0 }));
    assert!(tiles.contains(&TileDraw { texture: 2, x: 10 * U, y: 0 }));
    assert!(tiles.contains(&TileDraw { texture: 2, x: 0, y: 10 * U }));
    assert!(tiles.contains(&TileDraw { texture: 1, x: 10 * U, y: 10 * U }));
}

#[test]
fn shift_refresh_draws_exposed_strip() {
    let mut s = small_world();
    let mut g = GraphicsData::new();
    g.update_tile_buffer(s.camera_pos(), (20, 20), 10);
    s.set_camera_pos(Coordinate::new(U, 0));
    let a = g.update_tile_buffer(s.camera_pos(), (20, 20), 10);
    assert_eq!(a, BufferAction::Shift { dx: U, dy: 0 });
    let tiles = refresh_tile_buffer(&s, &g, Coordinate::new(0, 0), 10);
    assert_eq!(tiles.len(), 2);
    assert!(tiles.contains(&TileDraw { texture: 1, x: 10 * U, y: 0 }));
    assert!(tiles.contains(&TileDraw { texture: 2, x: 10 * U, y: 10 * U }));
}

#[test]
fn shift_off_grid_redraws_clipped_tiles() {
    let mut s = small_world();
    let mut g = GraphicsData::new();
    g.update_tile_buffer(s.camera_pos(), (20, 20), 10);
    s.set_camera_pos(Coordinate::new(3 * U / 2, 0));
    let a = g.update_tile_buffer(s.camera_pos(), (20, 20), 10);
    assert_eq!(a, BufferAction::Shift { dx: 3 * U / 2, dy: 0 });
    let tiles = refresh_tile_buffer(&s, &g, Coordinate::new(0, 0), 10);
    assert_eq!(tiles.len(), 4);
    assert!(tiles.contains(&TileDraw { texture: 1, x: 5 * U, y: 0 }));
    assert!(tiles.contains(&TileDraw { texture: 2, x: 5 * U, y: 10 * U }));
    assert!(tiles.contains(&TileDraw { texture: 2, x: 15 * U, y: 0 }));
    assert!(tiles.contains(&TileDraw { texture: 1, x: 15 * U, y: 10 * U }));
}

#[test]
fn redraw_without_chunks_is_empty() {
    let s: Surface<LabGen> = Surface::new(LabGen);
    let mut g = GraphicsData::new();
    g.update_tile_buffer(s.camera_pos(), (640, 480), 10);
    assert!(redraw_tile_buffer(&s, &g, 10).is_empty());
}

#[test]
fn full_redraw_draws_each_tile_once() {
    let mut tm = TileManager::new();
    tm.register_tile("grass", 1);
    tm.register_tile("grass1", 2);
    let mut s = Surface::new(LabGen);
    for x in -2..2 {
        for y in -2..2 {
            s.gen_chunk(ChunkCoord::new(x, y), &tm);
        }
    }
    s.set_camera_pos(Coordinate::new(U / 3, -U / 5));
    let mut g = GraphicsData::new();
    g.update_tile_buffer(s.camera_pos(), (200, 120), 10);
    let tiles = redraw_tile_buffer(&s, &g, 10);
    let mut keys: Vec<(i64, i64)> = tiles.iter().map(|d| (d.x, d.y)).collect();
    keys.sort();
    keys.dedup();
    assert_eq!(keys.len(), tiles.len());
    // a 220 x 140 px buffer of 10 px tiles, off the tile grid: 23 columns, 15 rows
    assert_eq!(tiles.len(), 23 * 15);
}
