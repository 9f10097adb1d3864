use isocraft::grid::{index_of, WORLD_VOL};
use isocraft::mesh::BOTTOM_FACE_ID;
use isocraft::world::World;

fn face(data: u32) -> u32 {
    (data >> 3) & 7
}

fn ao(data: u32) -> u32 {
    (data >> 1) & 3
}

fn select(data: u32) -> u32 {
    data & 1
}

fn xyz(data: u32) -> (u32, u32, u32) {
    (data >> 26, (data >> 20) & 63, (data >> 14) & 63)
}

#[test]
fn empty_chunk_is_culled() {
    let world = World::new();
    for ci in 0..WORLD_VOL {
        assert!(world.chunk_is_empty(ci));
        assert_eq!(world.build_mesh(ci, None).len(), 0);
        assert_eq!(world.build_mesh(ci, Some(0)).len(), 0);
    }
}

#[test]
fn isolated_voxel_has_five_faces() {
    let mut world = World::new();
    world.set(40, 10, 40, 6);
    let (ci, _) = index_of(40, 10, 40).unwrap();
    let mesh = world.build_mesh(ci, None);
    assert_eq!(mesh.len(), 30);
    let mut per_face = [0usize; 8];
    for v in mesh.iter() {
        assert_ne!(face(v.data), BOTTOM_FACE_ID as u32);
        assert_eq!((v.data >> 6) & 255, 6);
        assert_eq!(ao(v.data), 3);
        assert_eq!(select(v.data), 0);
        per_face[face(v.data) as usize] += 1;
    }
    assert_eq!(per_face, [6, 0, 6, 6, 6, 6, 0, 0]);
    // the first quad is the top face, wound v1, v0, v3, v1, v3, v2 (local 8, 10, 8)
    let corners: Vec<(u32, u32, u32)> = mesh[0..6].iter().map(|v| xyz(v.data)).collect();
    assert_eq!(corners, vec![(9, 11, 8), (8, 11, 8), (8, 11, 9), (9, 11, 8), (8, 11, 9), (9, 11, 9)]);
}

#[test]
fn covered_faces_are_culled() {
    let mut world = World::new();
    world.set(40, 10, 40, 1);
    world.set(40, 11, 40, 1);
    let (ci, _) = index_of(40, 10, 40).unwrap();
    // two stacked voxels: the lower loses its top face, the upper keeps all five
    assert_eq!(world.build_mesh(ci, None).len(), 54);
}

#[test]
fn world_edge_counts_as_void() {
    let mut world = World::new();
    world.set(0, 0, 0, 2);
    world.set(1, 0, 0, 2);
    let mesh = world.build_mesh(0, None);
    // each voxel shows four faces: the shared x faces are hidden
    assert_eq!(mesh.len(), 48);
}

#[test]
fn neighbour_chunk_hides_boundary_face() {
    let mut world = World::new();
    world.set(31, 5, 5, 2);
    let (ci, _) = index_of(31, 5, 5).unwrap();
    assert_eq!(world.build_mesh(ci, None).len(), 30);
    world.set(32, 5, 5, 2);
    assert_eq!(world.build_mesh(ci, None).len(), 24);
}

#[test]
fn ao_levels_from_surroundings() {
    let mut world = World::new();
    // a pit: the cell above (10, 10, 10) is empty, the eight cells around it are solid
    world.set(10, 10, 10, 1);
    for dx in -1i64..=1 {
        for dz in -1i64..=1 {
            if dx != 0 || dz != 0 {
                world.set(10 + dx, 11, 10 + dz, 1);
            }
        }
    }
    assert_eq!(world.get_ao(10, 11, 10, 1), [0, 0, 0, 0]);
    // open space: all samples void
    assert_eq!(world.get_ao(100, 40, 100, 1), [3, 3, 3, 3]);
    // one edge cell (-z side) solid: corners 0 and 1 share it
    world.set(100, 40, 99, 1);
    assert_eq!(world.get_ao(100, 40, 100, 1), [2, 2, 3, 3]);
    // the diagonal (-z, -x) cell: only corner 0
    world.set(99, 40, 99, 1);
    assert_eq!(world.get_ao(100, 40, 100, 1), [1, 2, 3, 3]);
}

#[test]
fn ao_values_stay_in_range() {
    let mut world = World::new();
    let heights: Vec<u32> = (0..160 * 160).map(|i| ((i * 7919) % 64) as u32).collect();
    world.build_chunk(&heights);
    for ci in 0..WORLD_VOL {
        for v in world.build_mesh(ci, None).iter() {
            assert!(ao(v.data) <= 3);
            assert_ne!(face(v.data), BOTTOM_FACE_ID as u32);
        }
    }
}

#[test]
fn selection_marks_one_quad() {
    let mut world = World::new();
    world.set(40, 10, 40, 6);
    world.set(50, 10, 40, 6);
    let (ci, vi) = index_of(50, 10, 40).unwrap();
    let offset = world.vertex_offset(ci, vi);
    assert_eq!(offset, 30);
    let mesh = world.build_mesh(ci, Some(offset));
    assert_eq!(mesh.len(), 60);
    for (i, v) in mesh.iter().enumerate() {
        assert_eq!(select(v.data), if (30..36).contains(&i) { 1 } else { 0 });
    }
    // an index that starts no quad marks nothing
    let none = world.build_mesh(ci, Some(31));
    assert!(none.iter().all(|v| select(v.data) == 0));
}
