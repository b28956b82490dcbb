use excavatemanufacturate::block::{BlockData, BlockName};
use excavatemanufacturate::chunk::ChunkData;
use excavatemanufacturate::coords::{BlockPos, ChunkPos};
use excavatemanufacturate::registry::{BlockRegistry, GRASS, STONE};
use excavatemanufacturate::world::ExcavateManufacturateWorld;

#[test]
fn store_write_then_read() {
    let reg = BlockRegistry::create((32, 48));
    let block = reg.create_block(&BlockName(STONE)).unwrap();
    let mut world = ExcavateManufacturateWorld::new();
    let c = ChunkPos::new(-1, 0, 2);
    assert!(world.insert_chunk(c, ChunkData::empty()).is_none());
    let p = BlockPos::new(-5, 3, 70);
    assert_eq!(ChunkPos::from(p), c);
    assert!(world.set_block(p, BlockData::some(block)));
    assert_eq!(world.get_block(p), Some(&BlockData::some(block)));
    assert!(world.is_occupied(p));
}

#[test]
fn write_without_chunk_fails() {
    let reg = BlockRegistry::create((32, 48));
    let block = reg.create_block(&BlockName(STONE)).unwrap();
    let mut world = ExcavateManufacturateWorld::new();
    let p = BlockPos::new(100, 100, 100);
    assert!(!world.set_block(p, BlockData::some(block)));
    assert!(world.get_block(p).is_none());
    assert!(!world.chunk_exists(ChunkPos::from(p)));
    assert_eq!(world.total_chunk_count(), 0);
}

#[test]
fn insert_returns_displaced_chunk() {
    let reg = BlockRegistry::create((32, 48));
    let block = reg.create_block(&BlockName(GRASS)).unwrap();
    let mut world = ExcavateManufacturateWorld::new();
    let c = ChunkPos::new(0, 0, 0);
    let mut first = ChunkData::empty();
    first.set(BlockPos::new(1, 1, 1), BlockData::some(block));
    assert!(world.insert_chunk(c, first).is_none());
    let displaced = world.insert_chunk(c, ChunkData::empty()).unwrap();
    assert!(!displaced.is_empty());
    assert!(world.get_chunk(c).unwrap().is_empty());
    assert_eq!(world.total_chunk_count(), 1);
    assert!(world.chunk_exists(c));
    assert!(!world.chunk_exists(ChunkPos::new(0, 0, 1)));
}

#[test]
fn air_cell_in_stored_chunk_is_not_occupied() {
    let mut world = ExcavateManufacturateWorld::new();
    world.insert_chunk(ChunkPos::new(0, 0, 0), ChunkData::empty());
    let p = BlockPos::new(3, 3, 3);
    assert_eq!(world.get_block(p), Some(&BlockData::none()));
    assert!(!world.is_occupied(p));
    assert!(!world.is_occupied(BlockPos::new(-3, 3, 3)));
}

#[test]
fn hit_evaluator_reports_occupancy() {
    let reg = BlockRegistry::create((32, 48));
    let block = reg.create_block(&BlockName(GRASS)).unwrap();
    let mut world = ExcavateManufacturateWorld::new();
    world.insert_chunk(ChunkPos::new(0, 0, 0), ChunkData::empty());
    world.set_block(BlockPos::new(1, 2, 3), BlockData::some(block));
    let occupied = world.hit_evaluator();
    assert!(occupied(BlockPos::new(1, 2, 3)));
    assert!(!occupied(BlockPos::new(1, 2, 4)));
    assert!(!occupied(BlockPos::new(-1, 2, 3)));
}

#[test]
fn chunk_edited_through_mutable_borrow() {
    let reg = BlockRegistry::create((32, 48));
    let block = reg.create_block(&BlockName(STONE)).unwrap();
    let mut world = ExcavateManufacturateWorld::new();
    assert!(world.get_chunk_mut(ChunkPos::new(0, 0, 0)).is_none());
    world.insert_chunk(ChunkPos::new(0, 0, 0), ChunkData::empty());
    world.get_chunk_mut(ChunkPos::new(0, 0, 0)).unwrap().set(BlockPos::new(9, 9, 9), BlockData::some(block));
    assert_eq!(world.get_block(BlockPos::new(9, 9, 9)), Some(&BlockData::some(block)));
    assert_eq!(world.total_chunk_count(), 1);
}
