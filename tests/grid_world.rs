use isocraft::chunk::{Chunk, ChunkVertexPacked, FILL_BLOCK, SURFACE_BLOCK};
use isocraft::grid::{chunk_position, chunk_translation_halves, index_of, world_position, CHUNK_VOL, WORLD_VOL, WORLD_X, WORLD_Y, WORLD_Z};
use isocraft::world::World;

#[test]
fn index_round_trip_every_coordinate() {
    for y in 0..WORLD_Y {
        for z in 0..WORLD_Z {
            for x in 0..WORLD_X {
                let (ci, vi) = index_of(x, y, z).expect("in bounds");
                assert!(ci < WORLD_VOL && vi < CHUNK_VOL);
                assert_eq!(world_position(ci, vi), (x, y, z));
            }
        }
    }
}

#[test]
fn index_round_trip_every_pair() {
    for ci in 0..WORLD_VOL {
        for vi in (0..CHUNK_VOL).step_by(7) {
            let (x, y, z) = world_position(ci, vi);
            assert_eq!(index_of(x, y, z), Some((ci, vi)));
        }
    }
}

#[test]
fn index_of_known_values() {
    assert_eq!(index_of(0, 0, 0), Some((0, 0)));
    // chunk (1, 1, 2), local (1, 8, 1)
    assert_eq!(index_of(33, 40, 65), Some((1 + 5 * 2 + 25, 1 + 32 + 1024 * 8)));
    assert_eq!(index_of(159, 63, 159), Some((49, CHUNK_VOL - 1)));
    assert_eq!(chunk_position(36), (1, 1, 2));
}

#[test]
fn index_of_out_of_bounds() {
    assert_eq!(index_of(-1, 0, 0), None);
    assert_eq!(index_of(0, -1, 0), None);
    assert_eq!(index_of(0, 0, -1), None);
    assert_eq!(index_of(160, 0, 0), None);
    assert_eq!(index_of(0, 64, 0), None);
    assert_eq!(index_of(0, 0, 160), None);
}

#[test]
fn set_get_round_trip_all_values() {
    let mut world = World::new();
    let points = [(0, 0, 0), (31, 31, 31), (32, 32, 32), (159, 63, 159), (77, 5, 140)];
    for &(x, y, z) in points.iter() {
        for v in 0..=255u8 {
            world.set(x, y, z, v);
            assert_eq!(world.get(x, y, z), v);
        }
    }
}

#[test]
fn set_leaves_other_voxels() {
    let mut world = World::new();
    world.set(10, 20, 30, 9);
    assert_eq!(world.get(10, 20, 30), 9);
    assert_eq!(world.get(11, 20, 30), 0);
    assert_eq!(world.get(10, 21, 30), 0);
    assert_eq!(world.get(10, 20, 31), 0);
}

#[test]
fn out_of_bounds_reads_void_and_set_is_dropped() {
    let mut world = World::new();
    world.set(-1, 5, 5, 4);
    world.set(5, 64, 5, 4);
    world.set(5, 5, 160, 4);
    assert_eq!(world.get(-1, 5, 5), 0);
    assert_eq!(world.get(5, 64, 5), 0);
    for ci in 0..WORLD_VOL {
        assert!(world.chunk_is_empty(ci));
    }
}

#[test]
fn chunk_emptiness_flag_follows_edits() {
    let mut chunk = Chunk::new();
    assert!(chunk.is_empty());
    chunk.set_voxel(100, 3);
    assert!(!chunk.is_empty());
    assert_eq!(chunk.voxel(100), 3);
    chunk.set_voxel(200, 1);
    chunk.set_voxel(100, 0);
    assert!(!chunk.is_empty());
    chunk.set_voxel(200, 0);
    assert!(chunk.is_empty());
}

#[test]
fn terrain_fill_from_heights() {
    let mut world = World::new();
    let mut heights = vec![40u32; (WORLD_X * WORLD_Z) as usize];
    heights[(5 + WORLD_X * 7) as usize] = 0;
    heights[(6 + WORLD_X * 7) as usize] = 100;
    heights[(7 + WORLD_X * 7) as usize] = 33;
    world.build_chunk(&heights);
    assert_eq!(world.get(0, 39, 0), SURFACE_BLOCK);
    assert_eq!(world.get(0, 38, 0), FILL_BLOCK);
    assert_eq!(world.get(0, 0, 0), FILL_BLOCK);
    assert_eq!(world.get(0, 40, 0), 0);
    assert_eq!(world.get(159, 39, 159), SURFACE_BLOCK);
    // a column of height 0 is empty
    for y in 0..WORLD_Y {
        assert_eq!(world.get(5, y, 7), 0);
    }
    // a column taller than the world is fill all the way up
    assert_eq!(world.get(6, 63, 7), FILL_BLOCK);
    // surface right above a chunk boundary
    assert_eq!(world.get(7, 32, 7), SURFACE_BLOCK);
    assert_eq!(world.get(7, 31, 7), FILL_BLOCK);
    assert_eq!(world.get(7, 33, 7), 0);
}

#[test]
fn terrain_below_upper_chunks_leaves_them_empty() {
    let mut world = World::new();
    let heights = vec![20u32; (WORLD_X * WORLD_Z) as usize];
    world.build_chunk(&heights);
    for ci in 0..WORLD_VOL {
        let (_, cy, _) = chunk_position(ci);
        assert_eq!(world.chunk_is_empty(ci), cy == 1);
    }
}

#[test]
fn pack_data_bit_layout() {
    let v = ChunkVertexPacked::pack_data(1, 2, 3, 4, 5, 3, 1);
    assert_eq!(v.data, (1 << 26) | (2 << 20) | (3 << 14) | (4 << 6) | (5 << 3) | (3 << 1) | 1);
    let top = ChunkVertexPacked::pack_data(63, 63, 63, 255, 7, 3, 1);
    assert_eq!(top.data, u32::MAX);
    assert_eq!(ChunkVertexPacked::pack_data(0, 0, 0, 0, 0, 0, 0).data, 0);
    assert_eq!(ChunkVertexPacked::pack_data(32, 0, 0, 0, 0, 0, 0).data, 32 << 26);
}

#[test]
fn add_vertex_writes_at_index() {
    let mut buf = vec![ChunkVertexPacked::pack_data(0, 0, 0, 0, 0, 0, 0); 5];
    let mut index = 1usize;
    let verts = [[1u8, 2, 3, 4, 0, 1, 0], [5, 6, 7, 8, 2, 2, 1]];
    Chunk::add_vertex(&mut buf, &verts, &mut index);
    assert_eq!(index, 3);
    assert_eq!(buf[0].data, 0);
    assert_eq!(buf[1].data, ChunkVertexPacked::pack_data(1, 2, 3, 4, 0, 1, 0).data);
    assert_eq!(buf[2].data, ChunkVertexPacked::pack_data(5, 6, 7, 8, 2, 2, 1).data);
    assert_eq!(buf[3].data, 0);
}

#[test]
fn chunk_translation_centres_the_world() {
    assert_eq!(chunk_translation_halves(0), (-5, -4, -5));
    assert_eq!(chunk_translation_halves(49), (3, -2, 3));
    assert_eq!(chunk_translation_halves(36), (-3, -2, -1));
}
