use excavatemanufacturate::block::BlockData;
use excavatemanufacturate::coords::{BlockPos, ChunkPos};
use excavatemanufacturate::registry::BlockRegistry;
use excavatemanufacturate::terrain::{OverworldGenerator, CHUNK_COLUMNS};

fn kind(b: BlockData) -> Option<usize> {
    b.0.map(|block| block.id.as_index())
}

#[test]
fn terrain_bands_by_depth() {
    let reg = BlockRegistry::create((32, 48));
    let g = OverworldGenerator;
    let h = 30;
    assert_eq!(kind(g.terrain_noise(BlockPos::new(0, -1, 0), h, &reg)), None);
    assert_eq!(kind(g.terrain_noise(BlockPos::new(0, 0, 0), h, &reg)), Some(0));
    assert_eq!(kind(g.terrain_noise(BlockPos::new(0, 1, 0), h, &reg)), Some(3));
    assert_eq!(kind(g.terrain_noise(BlockPos::new(0, 19, 0), h, &reg)), Some(3));
    assert_eq!(kind(g.terrain_noise(BlockPos::new(0, 20, 0), h, &reg)), Some(1));
    assert_eq!(kind(g.terrain_noise(BlockPos::new(0, 28, 0), h, &reg)), Some(1));
    assert_eq!(kind(g.terrain_noise(BlockPos::new(0, 29, 0), h, &reg)), Some(0));
    assert_eq!(kind(g.terrain_noise(BlockPos::new(0, 30, 0), h, &reg)), None);
}

#[test]
fn ground_layer_is_grass_even_under_low_surface() {
    let reg = BlockRegistry::create((32, 48));
    let g = OverworldGenerator;
    assert_eq!(kind(g.terrain_noise(BlockPos::new(4, 0, 4), -100, &reg)), Some(0));
    assert_eq!(kind(g.terrain_noise(BlockPos::new(4, 1, 4), -100, &reg)), None);
}

#[test]
fn terrain_is_deterministic() {
    let reg = BlockRegistry::create((32, 48));
    let g = OverworldGenerator;
    for y in -3..40 {
        let p = BlockPos::new(17, y, -9);
        assert_eq!(g.terrain_noise(p, 27, &reg), g.terrain_noise(p, 27, &reg));
    }
}

#[test]
fn generated_chunk_follows_column_heights() {
    let reg = BlockRegistry::create((32, 48));
    let g = OverworldGenerator;
    let mut heights = vec![30; CHUNK_COLUMNS];
    heights[5 + 32 * 7] = 12;
    let chunk = g.generate_chunk(ChunkPos::new(0, 0, 0), &heights, &reg);
    assert_eq!(kind(*chunk.get_from_raw_offset(BlockPos::new(5, 11, 7))), Some(0));
    assert_eq!(kind(*chunk.get_from_raw_offset(BlockPos::new(5, 12, 7))), None);
    assert_eq!(kind(*chunk.get_from_raw_offset(BlockPos::new(6, 12, 7))), Some(3));
    assert_eq!(kind(*chunk.get_from_raw_offset(BlockPos::new(6, 29, 7))), Some(0));
    let above = g.generate_chunk(ChunkPos::new(0, 1, 0), &heights, &reg);
    assert!(above.is_empty());
    let below = g.generate_chunk(ChunkPos::new(3, -1, 0), &heights, &reg);
    assert!(below.is_empty());
}
