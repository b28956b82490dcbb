use excavatemanufacturate::block::{BlockData, BlockName};
use excavatemanufacturate::chunk::ChunkData;
use excavatemanufacturate::coords::{BlockPos, ChunkPos};
use excavatemanufacturate::interaction::{
    apply_block_destroy_events, apply_block_place_events, block_can_be_destroyed, break_block, place_block,
    BlockDestroyEvent, BlockPlaceEvent,
};
use excavatemanufacturate::queue::ChunkSpawnQueue;
use excavatemanufacturate::registry::{BlockRegistry, BEDROCK, DIRT};
use excavatemanufacturate::world::ExcavateManufacturateWorld;

#[test]
fn placing_on_a_border_queues_neighbour_chunks() {
    let reg = BlockRegistry::create((32, 48));
    let dirt = reg.create_block(&BlockName(DIRT)).unwrap();
    let mut world = ExcavateManufacturateWorld::new();
    world.insert_chunk(ChunkPos::new(0, 0, 0), ChunkData::empty());
    let mut queue = ChunkSpawnQueue::new();
    assert!(place_block(&mut world, &mut queue, BlockPos::new(31, 5, 0), dirt));
    assert_eq!(queue.pop(), Some(ChunkPos::new(0, 0, 0)));
    assert_eq!(queue.pop(), Some(ChunkPos::new(1, 0, 0)));
    assert_eq!(queue.pop(), Some(ChunkPos::new(0, 0, -1)));
    assert_eq!(queue.pop(), None);
    assert!(block_can_be_destroyed(&world, &reg, BlockPos::new(31, 5, 0)));
    let event = BlockDestroyEvent::create(BlockPos::new(31, 5, 0), &world);
    assert_eq!(event.previous_block, BlockData::some(dirt));
    assert!(break_block(&mut world, &mut queue, BlockPos::new(31, 5, 0)));
    assert!(!world.is_occupied(BlockPos::new(31, 5, 0)));
    assert_eq!(queue.pop(), Some(ChunkPos::new(0, 0, 0)));
}

#[test]
fn edits_outside_stored_chunks_fail() {
    let reg = BlockRegistry::create((32, 48));
    let dirt = reg.create_block(&BlockName(DIRT)).unwrap();
    let mut world = ExcavateManufacturateWorld::new();
    let mut queue = ChunkSpawnQueue::new();
    assert!(!place_block(&mut world, &mut queue, BlockPos::new(1, 1, 1), dirt));
    assert!(!break_block(&mut world, &mut queue, BlockPos::new(1, 1, 1)));
    assert_eq!(queue.pop(), None);
    assert!(!block_can_be_destroyed(&world, &reg, BlockPos::new(1, 1, 1)));
}

#[test]
fn bedrock_cannot_be_destroyed() {
    let reg = BlockRegistry::create((32, 48));
    let bedrock = reg.create_block(&BlockName(BEDROCK)).unwrap();
    let mut world = ExcavateManufacturateWorld::new();
    world.insert_chunk(ChunkPos::new(0, 0, 0), ChunkData::empty());
    let mut queue = ChunkSpawnQueue::new();
    assert!(place_block(&mut world, &mut queue, BlockPos::new(3, 0, 3), bedrock));
    assert!(!block_can_be_destroyed(&world, &reg, BlockPos::new(3, 0, 3)));
    assert!(!block_can_be_destroyed(&world, &reg, BlockPos::new(4, 0, 3)));
}

#[test]
fn place_events_apply_in_order() {
    let reg = BlockRegistry::create((32, 48));
    let dirt = reg.create_block(&BlockName(DIRT)).unwrap();
    let bedrock = reg.create_block(&BlockName(BEDROCK)).unwrap();
    let mut world = ExcavateManufacturateWorld::new();
    world.insert_chunk(ChunkPos::new(0, 0, 0), ChunkData::empty());
    let mut queue = ChunkSpawnQueue::new();
    let p = BlockPos::new(5, 5, 5);
    let events = vec![
        BlockPlaceEvent { pos: p, block: BlockData::some(dirt) },
        BlockPlaceEvent { pos: BlockPos::new(40, 5, 5), block: BlockData::some(dirt) },
        BlockPlaceEvent { pos: p, block: BlockData::some(bedrock) },
    ];
    apply_block_place_events(&events, &mut world, &mut queue);
    assert_eq!(world.get_block(p), Some(&BlockData::some(bedrock)));
    assert!(world.get_block(BlockPos::new(40, 5, 5)).is_none());
    assert_eq!(queue.pop(), Some(ChunkPos::new(0, 0, 0)));
    assert_eq!(queue.pop(), Some(ChunkPos::new(0, 0, 0)));
    assert_eq!(queue.pop(), None);
}

#[test]
fn destroy_events_release_dynamic_state() {
    let reg = BlockRegistry::create((32, 48));
    let dirt = reg.create_block(&BlockName(DIRT)).unwrap();
    let mut world = ExcavateManufacturateWorld::new();
    world.insert_chunk(ChunkPos::new(0, 0, 0), ChunkData::empty());
    let mut queue = ChunkSpawnQueue::new();
    assert!(place_block(&mut world, &mut queue, BlockPos::new(1, 1, 1), dirt.with_dynamic_data(42)));
    assert!(place_block(&mut world, &mut queue, BlockPos::new(2, 1, 1), dirt));
    while queue.pop().is_some() {}
    let events = vec![
        BlockDestroyEvent::create(BlockPos::new(1, 1, 1), &world),
        BlockDestroyEvent::create(BlockPos::new(2, 1, 1), &world),
    ];
    let released = apply_block_destroy_events(&events, &mut world, &mut queue);
    assert_eq!(released, vec![42]);
    assert!(!world.is_occupied(BlockPos::new(1, 1, 1)));
    assert!(!world.is_occupied(BlockPos::new(2, 1, 1)));
    assert_eq!(queue.pop(), Some(ChunkPos::new(0, 0, 0)));
    assert_eq!(queue.pop(), Some(ChunkPos::new(0, 0, 0)));
    assert_eq!(queue.pop(), None);
}
