use tileworld::world::chunk::{Chunk, CHUNK_SIZE, CHUNK_TILES};
use tileworld::world::entity::{Behavior, Entity, EID};
use tileworld::world::tile::{names_match, Tile, TileManager};
use tileworld::world::worldgen::{Generator, LabGen, Origin};
use tileworld::world::{ChunkCoord, Coordinate, Surface, TileCoord, SUBUNITS};

fn registry() -> TileManager {
    let mut tm = TileManager::new();
    tm.register_tile("grass", 1);
    tm.register_tile("grass1", 2);
    tm
}

#[test]
fn tile_lies_in_its_chunk() {
    for &(x, y) in &[(0, 0), (31, 32), (-1, -33), (-32, 64), (i32::MIN, i32::MAX), (100, -100)] {
        let c = ChunkCoord::from(TileCoord::new(x, y));
        let o = TileCoord::from(c);
        assert!(o.x <= x && (x as i64) < o.x as i64 + 32);
        assert!(o.y <= y && (y as i64) < o.y as i64 + 32);
    }
    assert_eq!(ChunkCoord::from(TileCoord::new(-1, -33)), ChunkCoord::new(-1, -2));
    assert_eq!(TileCoord::from(ChunkCoord::new(-1, -2)), TileCoord::new(-32, -64));
}

#[test]
fn within_chunk_wraps_negative() {
    for &(x, y) in &[(0, 0), (-1, -1), (-33, 65), (i32::MIN, i32::MAX), (31, -32)] {
        let t = TileCoord::new(x, y);
        let l = ChunkCoord::from(t).within_chunk(t);
        assert!(0 <= l.x && l.x < 32 && 0 <= l.y && l.y < 32);
    }
    assert_eq!(ChunkCoord::new(0, 0).within_chunk(TileCoord::new(-40, 70)), TileCoord::new(24, 6));
    assert_eq!(ChunkCoord::new(-1, 0).within_chunk(TileCoord::new(-1, 3)), TileCoord::new(31, 3));
}

#[test]
fn world_to_chunk_agrees_with_tile_path() {
    for &(x, y) in &[(0, 0), (-1, 1), (-8192, 8191), (-8193, 8192), (123456789, -987654321)] {
        let w = Coordinate::new(x, y);
        assert_eq!(ChunkCoord::from(w), ChunkCoord::from(TileCoord::from(w)));
    }
    let w = Coordinate::new(-1, SUBUNITS * 33 + 5);
    assert_eq!(TileCoord::from(w), TileCoord::new(-1, 33));
    assert_eq!(ChunkCoord::from(w), ChunkCoord::new(-1, 1));
}

#[test]
fn chunk_corner_in_world() {
    assert_eq!(Coordinate::from(ChunkCoord::new(-2, 3)), Coordinate::new(-64 * SUBUNITS, 96 * SUBUNITS));
    assert_eq!(Coordinate::from(TileCoord::new(5, -7)), Coordinate::new(5 * SUBUNITS, -7 * SUBUNITS));
}

#[test]
fn registry_lookup_ignores_case() {
    let tm = registry();
    let t = tm.get_tile("GRASS").unwrap();
    assert_eq!(t.name, "grass");
    assert_eq!(t.texture, 1);
    assert_eq!(tm.get_tile("Grass1").unwrap().texture, 2);
    assert!(tm.get_tile("stone").is_err());
    assert!(names_match("aBc", "AbC"));
    assert!(!names_match("abc", "abd"));
    assert!(!names_match("ab", "abc"));
}

#[test]
fn registry_first_match_wins() {
    let mut tm = registry();
    tm.register_tile("Grass", 9);
    assert_eq!(tm.get_tile("grass").unwrap().texture, 1);
}

#[test]
fn chunk_local_lookup_bounds() {
    let tm = registry();
    let c = LabGen.gen_chunk(ChunkCoord::new(0, 0), &tm);
    assert_eq!(c.tiles.len(), CHUNK_TILES);
    assert!(c.get_tile(TileCoord::new(-1, 0)).is_err());
    assert!(c.get_tile(TileCoord::new(0, CHUNK_SIZE as i32)).is_err());
    assert_eq!(c.get_tile(TileCoord::new(31, 31)).unwrap().name, "grass");
    assert_eq!(c.get_tile(TileCoord::new(0, 1)).unwrap().name, "grass1");
    let tiles: Vec<Tile> = (0..CHUNK_TILES).map(|_| Tile { name: "x".to_string(), texture: 0 }).collect();
    let mut d = Chunk::new(ChunkCoord::new(4, 5), tiles);
    d.update();
    assert_eq!(d.position, ChunkCoord::new(4, 5));
}

#[test]
fn origin_generator_marks_first_tile() {
    let tm = registry();
    let c = Origin.gen_chunk(ChunkCoord::new(0, 0), &tm);
    assert_eq!(c.tiles[0].name, "grass1");
    assert_eq!(c.tiles[1].name, "grass");
    let d = Origin.gen_chunk(ChunkCoord::new(1, 0), &tm);
    assert_eq!(d.tiles[0].name, "grass");
}

#[test]
fn store_finds_generated_chunk() {
    let tm = registry();
    let mut s = Surface::new(LabGen);
    let c = ChunkCoord::new(-1, 2);
    assert!(s.get_chunk(c).is_none());
    s.gen_chunk(c, &tm);
    assert_eq!(s.get_chunk(c).unwrap().position, c);
    assert_eq!(s.chunk_count(), 1);
    s.gen_chunk(c, &tm);
    assert_eq!(s.chunk_count(), 1);
    let t = s.get_tile(TileCoord::new(-32, 64)).unwrap();
    assert_eq!(t.name, "grass");
    let t = s.get_tile(TileCoord::new(-31, 64)).unwrap();
    assert_eq!(t.name, "grass1");
    assert!(s.get_tile(TileCoord::new(0, 0)).is_none());
    assert!(s.get_chunk(ChunkCoord::new(2, -1)).is_none());
}

#[test]
fn checkerboard_scenario() {
    let tm = registry();
    let mut s = Surface::new(LabGen);
    for x in -1..2 {
        for y in -1..2 {
            s.gen_chunk(ChunkCoord::new(x, y), &tm);
        }
    }
    assert_eq!(s.chunk_count(), 9);
    assert_eq!(s.get_tile(TileCoord::new(0, 0)).unwrap().name, "grass");
    assert_eq!(s.get_tile(TileCoord::new(1, 0)).unwrap().name, "grass1");
    assert_eq!(s.get_tile(TileCoord::new(-1, 0)).unwrap().name, "grass1");
    assert_eq!(s.get_tile(TileCoord::new(-1, -1)).unwrap().name, "grass");
    assert!(s.get_tile(TileCoord::new(64, 0)).is_none());
}

#[test]
fn camera_moves() {
    let mut s = Surface::new(Origin);
    assert_eq!(s.camera_pos(), Coordinate::new(0, 0));
    s.set_camera_pos(Coordinate::new(3, -4));
    assert_eq!(s.camera_pos(), Coordinate::new(3, -4));
}

#[test]
fn entity_starts_idle() {
    let e = Entity::default();
    assert_eq!(e.id, EID(0));
    assert_eq!(e.behavior, Behavior::Idle);
}
