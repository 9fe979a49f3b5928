use honeycomb::{fill_terrain, Chunk, ChunkPos, World, CHUNK_SIZE, CHUNK_VOLUME, COLUMN_COUNT};

#[test]
fn from_world_floors_negative_coordinates() {
    assert_eq!(ChunkPos::from_world(-1, 0, 0).x, -1);
    assert_eq!(ChunkPos::from_world(-33, 0, 0).x, -2);
    assert_eq!(ChunkPos::from_world(0, 0, 0).x, 0);
    assert_eq!(ChunkPos::from_world(31, 0, 0).x, 0);
    assert_eq!(ChunkPos::from_world(32, 0, 0).x, 1);
    assert_eq!(ChunkPos::from_world(-32, 0, 0).x, -1);
}

#[test]
fn from_world_applies_to_every_axis() {
    let p = ChunkPos::from_world(64, -1, 95);
    assert_eq!(p, ChunkPos { x: 2, y: -1, z: 2 });
    let q = ChunkPos::from_world(i32::MIN, i32::MAX, -65);
    assert_eq!(q, ChunkPos { x: -67108864, y: 67108863, z: -3 });
}

#[test]
fn new_chunk_is_all_air() {
    let c = Chunk::new();
    for z in 0..CHUNK_SIZE {
        for y in 0..CHUNK_SIZE {
            for x in 0..CHUNK_SIZE {
                assert_eq!(c.get_block(x, y, z), 0);
            }
        }
    }
    assert_eq!(CHUNK_VOLUME, 32 * 32 * 32);
}

#[test]
fn set_block_round_trip_leaves_other_cells() {
    let mut c = Chunk::new();
    c.set_block(1, 2, 3, 7);
    assert_eq!(c.get_block(1, 2, 3), 7);
    assert_eq!(c.get_block(2, 1, 3), 0);
    assert_eq!(c.get_block(3, 2, 1), 0);
    assert_eq!(c.get_block(1, 2, 4), 0);
    c.set_block(31, 31, 31, 255);
    c.set_block(0, 0, 0, 9);
    assert_eq!(c.get_block(31, 31, 31), 255);
    assert_eq!(c.get_block(0, 0, 0), 9);
    assert_eq!(c.get_block(1, 2, 3), 7);
    c.set_block(1, 2, 3, 0);
    assert_eq!(c.get_block(1, 2, 3), 0);
}

#[test]
fn checked_lookup_rejects_outside_cells() {
    let mut c = Chunk::new();
    c.set_block(0, 31, 5, 4);
    assert_eq!(c.get_block_checked(0, 31, 5), Some(4));
    assert_eq!(c.get_block_checked(0, 0, 0), Some(0));
    assert_eq!(c.get_block_checked(-1, 0, 0), None);
    assert_eq!(c.get_block_checked(0, 32, 0), None);
    assert_eq!(c.get_block_checked(0, 0, i64::MAX), None);
}

fn flat_heights(top: i64) -> Vec<i64> {
    vec![top; COLUMN_COUNT]
}

#[test]
fn fill_terrain_is_solid_up_to_column_top() {
    let mut heights = flat_heights(40);
    heights[3 * 32 + 2] = 33;
    let mut c = Chunk::new();
    c.set_block(0, 31, 0, 5);
    fill_terrain(&mut c, ChunkPos { x: 0, y: 1, z: 0 }, &heights);
    // chunk y = 1 covers world heights 32..=63
    assert_eq!(c.get_block(0, 8, 0), 1);
    assert_eq!(c.get_block(0, 9, 0), 0);
    assert_eq!(c.get_block(0, 31, 0), 0);
    assert_eq!(c.get_block(2, 1, 3), 1);
    assert_eq!(c.get_block(2, 2, 3), 0);
    assert_eq!(c.get_block(3, 2, 2), 1);
}

#[test]
fn fill_terrain_below_and_above_surface() {
    let heights = flat_heights(64);
    let mut low = Chunk::new();
    fill_terrain(&mut low, ChunkPos { x: 5, y: -3, z: 1 }, &heights);
    let mut high = Chunk::new();
    fill_terrain(&mut high, ChunkPos { x: 5, y: 3, z: 1 }, &heights);
    for z in 0..CHUNK_SIZE {
        for y in 0..CHUNK_SIZE {
            for x in 0..CHUNK_SIZE {
                assert_eq!(low.get_block(x, y, z), 1);
                assert_eq!(high.get_block(x, y, z), 0);
            }
        }
    }
}

#[test]
fn unloaded_chunk_reads_as_air() {
    let w = World::new(7);
    assert_eq!(w.get_block(0, 0, 0), 0);
    assert_eq!(w.get_block(-1000, 64, 5000), 0);
    assert!(!w.has_chunk(ChunkPos { x: 0, y: 0, z: 0 }));
}

#[test]
fn world_keeps_its_seed() {
    let mut w = World::new(12345);
    assert_eq!(w.seed(), 12345);
    w.generate_chunk(ChunkPos { x: 0, y: 0, z: 0 }, &flat_heights(3));
    assert_eq!(w.seed(), 12345);
}

#[test]
fn world_get_block_uses_floor_and_remainder() {
    let mut w = World::new(1);
    let mut c = Chunk::new();
    c.set_block(31, 0, 31, 6);
    c.set_block(0, 0, 0, 8);
    w.insert_chunk(ChunkPos { x: -1, y: 0, z: -1 }, c);
    assert!(w.has_chunk(ChunkPos { x: -1, y: 0, z: -1 }));
    assert_eq!(w.get_block(-1, 0, -1), 6);
    assert_eq!(w.get_block(-32, 0, -32), 8);
    assert_eq!(w.get_block(-2, 0, -1), 0);
    assert_eq!(w.get_block(0, 0, 0), 0);
    assert_eq!(w.get_block(-1, -1, -1), 0);
}

#[test]
fn world_generate_chunk_fills_terrain() {
    let mut w = World::new(42);
    let pos = ChunkPos::from_world(10, 64, 10);
    w.generate_chunk(pos, &flat_heights(70));
    assert!(w.has_chunk(pos));
    assert_eq!(w.get_block(10, 64, 10), 1);
    assert_eq!(w.get_block(10, 70, 10), 1);
    assert_eq!(w.get_block(10, 71, 10), 0);
    assert_eq!(w.get_block(10, 63, 10), 0);
}

#[test]
fn insert_replaces_existing_chunk() {
    let mut w = World::new(0);
    let pos = ChunkPos { x: 2, y: 0, z: 0 };
    w.generate_chunk(pos, &flat_heights(31));
    assert_eq!(w.get_block(64, 0, 0), 1);
    w.insert_chunk(pos, Chunk::new());
    assert_eq!(w.get_block(64, 0, 0), 0);
}

#[test]
fn generation_is_deterministic() {
    let mut heights = Vec::new();
    for i in 0..COLUMN_COUNT {
        heights.push((i as i64 * 7919) % 97 - 20);
    }
    let pos = ChunkPos { x: -3, y: 1, z: 4 };
    let mut a = World::new(42);
    let mut b = World::new(42);
    a.generate_chunk(pos, &heights);
    b.generate_chunk(pos, &heights);
    a.generate_chunk(pos, &heights);
    let mut solid = 0;
    for z in 0..32 {
        for y in 0..32 {
            for x in 0..32 {
                let wx = -96 + x;
                let wy = 32 + y;
                let wz = 128 + z;
                assert_eq!(a.get_block(wx, wy, wz), b.get_block(wx, wy, wz));
                solid += a.get_block(wx, wy, wz) as u32;
            }
        }
    }
    assert!(solid > 0);
}

#[test]
fn get_chunk_returns_stored_chunk() {
    let mut w = World::new(3);
    let pos = ChunkPos { x: 0, y: -1, z: 2 };
    assert!(w.get_chunk(pos).is_none());
    let mut c = Chunk::new();
    c.set_block(4, 5, 6, 2);
    w.insert_chunk(pos, c);
    let stored = w.get_chunk(pos).expect("inserted above");
    assert_eq!(stored.get_block(4, 5, 6), 2);
    assert_eq!(stored.get_block(4, 5, 7), 0);
}
