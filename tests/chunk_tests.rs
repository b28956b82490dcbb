use excavatemanufacturate::block::BlockData;
use excavatemanufacturate::chunk::{ChunkData, CHUNK_VOLUME};
use excavatemanufacturate::coords::BlockPos;
use excavatemanufacturate::registry::{BlockRegistry, GRASS, STONE};
use excavatemanufacturate::block::BlockName;

fn registry() -> BlockRegistry {
    BlockRegistry::create((32, 48))
}

#[test]
fn empty_chunk_is_all_air() {
    let chunk = ChunkData::empty();
    assert!(chunk.is_empty());
    assert_eq!(chunk.get_raw_array().len(), CHUNK_VOLUME);
    assert!(chunk.get_raw_array().iter().all(|b| b.is_none()));
}

#[test]
fn indexify_is_row_major() {
    assert_eq!(ChunkData::indexify(BlockPos::new(0, 0, 0)), 0);
    assert_eq!(ChunkData::indexify(BlockPos::new(1, 0, 0)), 1);
    assert_eq!(ChunkData::indexify(BlockPos::new(0, 1, 0)), 32);
    assert_eq!(ChunkData::indexify(BlockPos::new(0, 0, 1)), 1024);
    assert_eq!(ChunkData::indexify(BlockPos::new(31, 31, 31)), 32767);
    assert_eq!(ChunkData::deindexify(1057), BlockPos::new(1, 1, 1));
    assert_eq!(ChunkData::deindexify(32767), BlockPos::new(31, 31, 31));
}

#[test]
fn set_and_get_by_world_position() {
    let reg = registry();
    let stone = reg.create_block(&BlockName(STONE)).unwrap();
    let mut chunk = ChunkData::empty();
    chunk.set(BlockPos::new(-1, 33, 2), BlockData::some(stone));
    assert!(!chunk.is_empty());
    assert_eq!(*chunk.get(BlockPos::new(31, 1, 2)), BlockData::some(stone));
    assert_eq!(*chunk.get_from_raw_offset(BlockPos::new(31, 1, 2)), BlockData::some(stone));
    assert!(chunk.get(BlockPos::new(30, 1, 2)).is_none());
    chunk.set(BlockPos::new(31, 1, 2), BlockData::none());
    assert!(chunk.is_empty());
}

#[test]
fn replacing_a_block_keeps_the_count() {
    let reg = registry();
    let stone = reg.create_block(&BlockName(STONE)).unwrap();
    let grass = reg.create_block(&BlockName(GRASS)).unwrap();
    let mut chunk = ChunkData::empty();
    chunk.set(BlockPos::new(0, 0, 0), BlockData::some(stone));
    chunk.set(BlockPos::new(0, 0, 0), BlockData::some(grass));
    chunk.set(BlockPos::new(0, 0, 0), BlockData::none());
    assert!(chunk.is_empty());
}

#[test]
fn raw_offset_outside_chunk_is_none() {
    let chunk = ChunkData::empty();
    assert!(chunk.try_get_from_raw_offset(BlockPos::new(32, 0, 0)).is_none());
    assert!(chunk.try_get_from_raw_offset(BlockPos::new(0, -1, 0)).is_none());
    assert!(chunk.try_get_from_raw_offset(BlockPos::new(0, 0, 31)).is_some());
}

#[test]
fn with_data_fills_each_offset() {
    let reg = registry();
    let stone = reg.create_block(&BlockName(STONE)).unwrap();
    let chunk = ChunkData::with_data(|o: BlockPos| if o.y < 2 { BlockData::some(stone) } else { BlockData::none() });
    assert!(!chunk.is_empty());
    assert_eq!(*chunk.get_from_raw_offset(BlockPos::new(7, 1, 9)), BlockData::some(stone));
    assert!(chunk.get_from_raw_offset(BlockPos::new(7, 2, 9)).is_none());
    let solid = chunk.get_raw_array().iter().filter(|b| b.is_some()).count();
    assert_eq!(solid, 2 * 32 * 32);
}
