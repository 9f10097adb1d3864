use isocraft::grid::index_of;
use isocraft::picker::{get_direction, pick, Direction, Hit, Ray};
use isocraft::session::{block_for_digit, remesh_targets, Action, EditSession};
use isocraft::voxel_handler::VoxelHandler;
use isocraft::world::World;

fn down_ray(x: i64, z: i64) -> Ray {
    Ray { x: x * 1000 + 500, y: 70_000, z: z * 1000 + 500, dx: 0, dy: -50, dz: 0 }
}

fn hit_at(x: i64, y: i64, z: i64, direction: Direction) -> Hit {
    let (chunk_index, voxel_index) = index_of(x, y, z).unwrap();
    Hit { position: (x, y, z), chunk_index, voxel_index, direction }
}

fn flat_world(height: u32) -> World {
    let mut world = World::new();
    world.build_chunk(&vec![height; 160 * 160]);
    world
}

#[test]
fn pick_miss_in_empty_world() {
    let world = World::new();
    assert!(pick(&world, &down_ray(10, 10)).is_none());
    let mut handler = VoxelHandler::new();
    handler.target = Some(hit_at(1, 1, 1, Direction::PosY));
    handler.update(&world, &down_ray(10, 10));
    assert!(handler.target.is_none());
    assert!(handler.hovered.is_none());
    assert!(world.chunk_is_empty(0));
}

#[test]
fn pick_miss_outside_world_columns() {
    let world = flat_world(10);
    assert!(pick(&world, &down_ray(-3, 10)).is_none());
    assert!(pick(&world, &down_ray(10, 200)).is_none());
}

#[test]
fn pick_hits_top_of_terrain() {
    let world = flat_world(10);
    let hit = pick(&world, &down_ray(12, 34)).expect("hit");
    assert_eq!(hit.position, (12, 9, 34));
    assert_eq!((hit.chunk_index, hit.voxel_index), index_of(12, 9, 34).unwrap());
    assert_eq!(hit.direction, Direction::PosY);
}

#[test]
fn pick_slanted_ray_hits_side() {
    let mut world = World::new();
    world.set(20, 5, 20, 3);
    // moves +x by 100 and down by 10 per step: enters the voxel through its -x face
    let ray = Ray { x: 15_000, y: 5_900, z: 20_500, dx: 100, dy: -10, dz: 0 };
    let hit = pick(&world, &ray).expect("hit");
    assert_eq!(hit.position, (20, 5, 20));
    assert_eq!(hit.direction, Direction::NegX);
}

#[test]
fn nearest_face_of_hit_point() {
    assert_eq!(get_direction(500, 999, 500), Direction::PosY);
    assert_eq!(get_direction(500, 500, 0), Direction::NegZ);
    assert_eq!(get_direction(500, 500, 999), Direction::PosZ);
    assert_eq!(get_direction(0, 500, 500), Direction::NegX);
    assert_eq!(get_direction(999, 500, 500), Direction::PosX);
    // the centre is as near to every face: the first candidate wins
    assert_eq!(get_direction(500, 500, 500), Direction::PosY);
    // equally near to -z and -x: -z comes first
    assert_eq!(get_direction(100, 500, 100), Direction::NegZ);
}

#[test]
fn ray_validity() {
    assert!(down_ray(1, 1).is_valid());
    let up = Ray { x: 0, y: 0, z: 0, dx: 0, dy: 1, dz: 0 };
    assert!(!up.is_valid());
    let flat = Ray { x: 0, y: 0, z: 0, dx: 5, dy: 0, dz: 0 };
    assert!(!flat.is_valid());
}

#[test]
fn hover_switch_restores_first_voxel() {
    let mut world = World::new();
    world.set(10, 10, 10, 5);
    world.set(20, 10, 20, 7);
    let mut handler = VoxelHandler::new();
    handler.target = Some(hit_at(10, 10, 10, Direction::PosY));
    assert!(handler.select_voxel(&mut world));
    let hovered = handler.hovered.unwrap();
    assert_eq!(hovered.previous, 5);
    assert_eq!(handler.last_world, Some((10, 10, 10)));
    handler.target = Some(hit_at(20, 10, 20, Direction::PosY));
    assert!(handler.select_voxel(&mut world));
    assert_eq!(world.get(10, 10, 10), 5);
    assert_eq!(world.get(20, 10, 20), 7);
    assert_eq!(handler.hovered.unwrap().previous, 7);
}

#[test]
fn select_without_target_or_on_empty() {
    let mut world = World::new();
    let mut handler = VoxelHandler::new();
    assert!(!handler.select_voxel(&mut world));
    handler.target = Some(hit_at(3, 3, 3, Direction::PosY));
    assert!(!handler.select_voxel(&mut world));
    assert!(handler.hovered.is_none());
}

#[test]
fn remove_captures_and_clears() {
    let mut world = World::new();
    world.set(10, 10, 10, 5);
    let mut handler = VoxelHandler::new();
    handler.target = Some(hit_at(10, 10, 10, Direction::PosY));
    handler.change_voxel(&mut world, 0);
    assert_eq!(world.get(10, 10, 10), 0);
    assert_eq!(handler.hovered.unwrap().previous, 5);
    assert_eq!(handler.last_world, Some((10, 10, 10)));
    // removing an empty voxel does nothing
    let mut other = VoxelHandler::new();
    other.target = Some(hit_at(11, 10, 10, Direction::PosY));
    other.change_voxel(&mut world, 0);
    assert!(other.hovered.is_none());
    assert_eq!(world.get(11, 10, 10), 0);
}

#[test]
fn place_adjacent_and_at_world_edge() {
    let mut world = World::new();
    world.set(0, 5, 5, 1);
    let mut handler = VoxelHandler::new();
    handler.target = Some(hit_at(0, 5, 5, Direction::PosY));
    handler.add_voxel(&mut world, 4);
    assert_eq!(world.get(0, 6, 5), 4);
    // the -x face of a voxel at x = 0 faces out of the world: nothing happens
    handler.target = Some(hit_at(0, 5, 5, Direction::NegX));
    handler.add_voxel(&mut world, 4);
    assert_eq!(world.get(-1, 5, 5), 0);
    assert_eq!(world.get(0, 5, 5), 1);
    assert_eq!(world.get(0, 6, 5), 4);
    // the top face at the top of the world
    world.set(9, 63, 9, 1);
    handler.target = Some(hit_at(9, 63, 9, Direction::PosY));
    handler.add_voxel(&mut world, 4);
    assert_eq!(world.get(9, 64, 9), 0);
    assert_eq!(world.get(9, 63, 9), 1);
}

#[test]
fn remesh_interior_edit_marks_owner_only() {
    let (owner, _) = index_of(40, 10, 40).unwrap();
    assert_eq!(remesh_targets(40, 10, 40), vec![owner]);
}

#[test]
fn remesh_boundary_edit_marks_neighbours() {
    let (owner, _) = index_of(32, 10, 40).unwrap();
    let (left, _) = index_of(31, 10, 40).unwrap();
    assert_eq!(remesh_targets(32, 10, 40), vec![owner, left]);
    let (right, _) = index_of(64, 10, 40).unwrap();
    assert_eq!(remesh_targets(63, 10, 40), vec![index_of(63, 10, 40).unwrap().0, right]);
    // a corner: across x, y and z
    let t = remesh_targets(32, 31, 63);
    assert_eq!(
        t,
        vec![
            index_of(32, 31, 63).unwrap().0,
            index_of(31, 31, 63).unwrap().0,
            index_of(32, 32, 63).unwrap().0,
            index_of(32, 31, 64).unwrap().0,
        ]
    );
}

#[test]
fn remesh_world_edge_has_no_neighbour() {
    assert_eq!(remesh_targets(0, 0, 0), vec![0]);
    assert_eq!(remesh_targets(159, 63, 159), vec![49]);
}

#[test]
fn digit_keys_choose_blocks() {
    for d in 0..=6u8 {
        assert_eq!(block_for_digit(d), Some(d + 1));
    }
    assert_eq!(block_for_digit(7), None);
    let mut session = EditSession::new();
    assert_eq!(session.block, 1);
    session.select_block(3);
    assert_eq!(session.block, 4);
    session.select_block(9);
    assert_eq!(session.block, 4);
}

#[test]
fn tick_hover_highlights_target() {
    let mut world = flat_world(10);
    let mut session = EditSession::new();
    let remesh = session.tick(&mut world, &down_ray(12, 34), Action::Hover);
    let (ci, vi) = index_of(12, 9, 34).unwrap();
    assert_eq!(remesh.len(), 1);
    assert_eq!(remesh[0].chunk_index, ci);
    assert_eq!(remesh[0].select, Some(world.vertex_offset(ci, vi)));
    assert_eq!(world.get(12, 9, 34), 2);
    let mesh = world.build_mesh(ci, remesh[0].select);
    assert_eq!(mesh.iter().filter(|v| v.data & 1 == 1).count(), 6);
}

#[test]
fn tick_remove_on_boundary() {
    let mut world = flat_world(33);
    let mut session = EditSession::new();
    // the surface voxel (32, 32, 40) sits on two chunk boundary planes
    let remesh = session.tick(&mut world, &down_ray(32, 40), Action::Remove);
    assert_eq!(world.get(32, 32, 40), 0);
    let own = index_of(32, 32, 40).unwrap().0;
    let mut stale: Vec<usize> = remesh[..remesh.len() - 1].iter().map(|r| r.chunk_index).collect();
    stale.sort();
    let mut expected = vec![index_of(31, 32, 40).unwrap().0, index_of(32, 31, 40).unwrap().0];
    expected.sort();
    assert_eq!(stale, expected);
    let last = remesh[remesh.len() - 1];
    assert_eq!(last.chunk_index, own);
    assert_eq!(last.select, None);
    assert_eq!(session.handler.hovered.unwrap().previous, 0);
    // the next hover does not bring the removed voxel back
    session.tick(&mut world, &down_ray(50, 50), Action::Hover);
    assert_eq!(world.get(32, 32, 40), 0);
}

#[test]
fn tick_place_uses_active_block() {
    let mut world = flat_world(10);
    let mut session = EditSession::new();
    session.select_block(4);
    session.tick(&mut world, &down_ray(12, 34), Action::Place);
    assert_eq!(world.get(12, 10, 34), 5);
    assert_eq!(world.get(12, 9, 34), 2);
}

#[test]
fn tick_miss_clears_hover() {
    let mut world = flat_world(10);
    let mut session = EditSession::new();
    session.tick(&mut world, &down_ray(12, 34), Action::Hover);
    let (ci, _) = index_of(12, 9, 34).unwrap();
    let remesh = session.tick(&mut world, &down_ray(-5, -5), Action::Hover);
    assert!(session.handler.target.is_none());
    assert!(session.handler.hovered.is_none());
    assert_eq!(remesh.len(), 1);
    assert_eq!(remesh[0].chunk_index, ci);
    assert_eq!(remesh[0].select, None);
    assert_eq!(world.get(12, 9, 34), 2);
}

#[test]
fn tick_hover_switch_keeps_voxels() {
    let mut world = flat_world(10);
    let mut session = EditSession::new();
    session.tick(&mut world, &down_ray(12, 34), Action::Hover);
    assert_eq!(session.handler.hovered.unwrap().previous, 2);
    let remesh = session.tick(&mut world, &down_ray(100, 100), Action::Hover);
    assert_eq!(world.get(12, 9, 34), 2);
    assert_eq!(world.get(100, 9, 100), 2);
    // the previously hovered chunk is rebuilt without highlight first
    let old_chunk = index_of(12, 9, 34).unwrap().0;
    let new_chunk = index_of(100, 9, 100).unwrap().0;
    assert_eq!(remesh.len(), 2);
    assert_eq!(remesh[0].chunk_index, old_chunk);
    assert_eq!(remesh[0].select, None);
    assert_eq!(remesh[1].chunk_index, new_chunk);
    assert!(remesh[1].select.is_some());
}

#[test]
fn void_cells_and_flat_access() {
    let mut world = World::new();
    world.set_at(3, 17, 9);
    assert_eq!(world.voxel_at(3, 17), 9);
    let (x, y, z) = isocraft::grid::world_position(3, 17);
    assert_eq!(world.get(x, y, z), 9);
    assert!(!world.voxel_is_void(x, y, z));
    assert!(world.voxel_is_void(x + 1, y, z));
    assert!(world.voxel_is_void(-1, 0, 0));
}
