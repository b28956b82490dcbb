use excavatemanufacturate::block::{BlockData, BlockName};
use excavatemanufacturate::chunk::ChunkData;
use excavatemanufacturate::coords::{BlockPos, ChunkPos};
use excavatemanufacturate::raycast::{raytrace_dda, Ray};
use excavatemanufacturate::registry::{BlockRegistry, STONE};
use excavatemanufacturate::world::ExcavateManufacturateWorld;

fn world_with(blocks: &[BlockPos]) -> ExcavateManufacturateWorld {
    let reg = BlockRegistry::create((32, 48));
    let stone = reg.create_block(&BlockName(STONE)).unwrap();
    let mut world = ExcavateManufacturateWorld::new();
    for &p in blocks {
        let c = ChunkPos::from(p);
        if !world.chunk_exists(c) {
            world.insert_chunk(c, ChunkData::empty());
        }
        assert!(world.set_block(p, BlockData::some(stone)));
    }
    world
}

#[test]
fn ray_along_z_hits_face_exactly() {
    let world = world_with(&[BlockPos::new(0, 0, 0)]);
    let ray = Ray { origin: (1, 1, -10), scale: 2, direction: (0, 0, 1) };
    let hit = raytrace_dda(&ray, 5, &world).unwrap();
    assert_eq!(hit.cell, BlockPos::new(0, 0, 0));
    assert_eq!(hit.normal, (0, 0, -1));
    assert_eq!(hit.position.2, 0);
    assert_eq!(hit.position.0 * 2, hit.denominator);
    assert_eq!(hit.position.1 * 2, hit.denominator);
    assert!(raytrace_dda(&ray, 30, &world).is_some());
}

#[test]
fn ray_runs_out_of_steps() {
    let world = world_with(&[BlockPos::new(0, 0, 0)]);
    let ray = Ray { origin: (1, 1, -10), scale: 2, direction: (0, 0, 1) };
    assert!(raytrace_dda(&ray, 4, &world).is_none());
    assert!(raytrace_dda(&ray, 0, &world).is_none());
}

#[test]
fn ray_in_negative_direction_hits_far_face() {
    let world = world_with(&[BlockPos::new(-3, 0, 0)]);
    let ray = Ray { origin: (3, 1, 1), scale: 2, direction: (-1, 0, 0) };
    let hit = raytrace_dda(&ray, 10, &world).unwrap();
    assert_eq!(hit.cell, BlockPos::new(-3, 0, 0));
    assert_eq!(hit.normal, (1, 0, 0));
    // Entry point x = -2.
    assert_eq!(hit.position.0, -2 * hit.denominator);
}

#[test]
fn diagonal_ray_steps_both_axes_at_a_corner() {
    let world = world_with(&[BlockPos::new(1, 1, 0)]);
    let ray = Ray { origin: (1, 1, 1), scale: 2, direction: (1, 1, 0) };
    let hit = raytrace_dda(&ray, 3, &world).unwrap();
    assert_eq!(hit.cell, BlockPos::new(1, 1, 0));
    assert_eq!(hit.normal, (-1, -1, 0));
    assert_eq!(hit.position.0, hit.denominator);
    assert_eq!(hit.position.1, hit.denominator);
}

#[test]
fn ray_misses_in_empty_world() {
    let world = ExcavateManufacturateWorld::new();
    let ray = Ray { origin: (0, 0, 0), scale: 1, direction: (3, -2, 5) };
    assert!(raytrace_dda(&ray, 100, &world).is_none());
}
