use excavatemanufacturate::coords::{BlockPos, ChunkPos, LocalChunkPos, CHUNK_SIZE_INT};

#[test]
fn negative_coordinate_wraps_into_chunk() {
    assert_eq!(BlockPos::new(-1, 0, 0).as_chunk_offset(), BlockPos::new(31, 0, 0));
    assert_eq!(BlockPos::new(-32, -33, -64).as_chunk_offset(), BlockPos::new(0, 31, 0));
}

#[test]
fn chunk_of_block_uses_floored_division() {
    assert_eq!(ChunkPos::from(BlockPos::new(-1, 0, 31)), ChunkPos::new(-1, 0, 0));
    assert_eq!(ChunkPos::from(BlockPos::new(-32, 32, -33)), ChunkPos::new(-1, 1, -2));
    assert_eq!(ChunkPos::from(BlockPos::new(i32::MIN, i32::MAX, 0)), ChunkPos::new(-67108864, 67108863, 0));
}

#[test]
fn chunk_origin_and_offset_round_trip() {
    let samples = [
        BlockPos::new(0, 0, 0),
        BlockPos::new(-1, -1, -1),
        BlockPos::new(31, 32, 33),
        BlockPos::new(-33, 64, -65),
        BlockPos::new(i32::MIN, i32::MAX, 12345),
    ];
    for p in samples {
        let origin = BlockPos::from(ChunkPos::from(p));
        let offset = p.as_chunk_offset();
        assert!(origin.x <= p.x && origin.y <= p.y && origin.z <= p.z);
        assert_eq!(p.x as i64 - origin.x as i64, offset.x as i64);
        assert_eq!(p.y as i64 - origin.y as i64, offset.y as i64);
        assert_eq!(p.z as i64 - origin.z as i64, offset.z as i64);
        assert!(0 <= offset.x && offset.x < CHUNK_SIZE_INT);
        assert!(0 <= offset.y && offset.y < CHUNK_SIZE_INT);
        assert!(0 <= offset.z && offset.z < CHUNK_SIZE_INT);
    }
}

#[test]
fn chunk_origin_scales_by_chunk_size() {
    assert_eq!(BlockPos::from(ChunkPos::new(-2, 0, 3)), BlockPos::new(-64, 0, 96));
}

#[test]
fn border_detection() {
    assert!(BlockPos::new(0, 5, 5).is_on_chunk_border());
    assert!(BlockPos::new(5, 31, 5).is_on_chunk_border());
    assert!(BlockPos::new(-1, 5, 5).is_on_chunk_border());
    assert!(!BlockPos::new(5, 5, 5).is_on_chunk_border());
    assert!(!BlockPos::new(-5, 40, 70).is_on_chunk_border());
}

#[test]
fn touched_chunks_of_interior_block_is_own_chunk() {
    assert_eq!(BlockPos::new(5, 5, 5).get_touched_chunk_positions(), vec![ChunkPos::new(0, 0, 0)]);
}

#[test]
fn touched_chunks_of_border_blocks() {
    assert_eq!(
        BlockPos::new(0, 5, 31).get_touched_chunk_positions(),
        vec![ChunkPos::new(0, 0, 0), ChunkPos::new(-1, 0, 0), ChunkPos::new(0, 0, 1)]
    );
    assert_eq!(
        BlockPos::new(-1, 32, -32).get_touched_chunk_positions(),
        vec![
            ChunkPos::new(-1, 1, -1),
            ChunkPos::new(0, 1, -1),
            ChunkPos::new(-1, 0, -1),
            ChunkPos::new(-1, 1, -2),
        ]
    );
}

#[test]
fn add_and_sub_are_componentwise() {
    assert_eq!(BlockPos::new(1, 2, 3).add(BlockPos::new(-4, 5, 6)), BlockPos::new(-3, 7, 9));
    assert_eq!(BlockPos::new(1, 2, 3).sub(BlockPos::new(-4, 5, 6)), BlockPos::new(5, -3, -3));
    assert_eq!(ChunkPos::new(1, 2, 3).add(ChunkPos::new(1, 1, 1)), ChunkPos::new(2, 3, 4));
    assert_eq!(ChunkPos::new(1, 2, 3).sub(ChunkPos::new(1, 1, 1)), ChunkPos::new(0, 1, 2));
}

#[test]
fn local_chunk_position_is_relative_to_observer() {
    let local = LocalChunkPos::from(ChunkPos::new(3, -1, 0), ChunkPos::new(1, 1, 1));
    assert_eq!(local.pos, ChunkPos::new(2, -2, -1));
}
