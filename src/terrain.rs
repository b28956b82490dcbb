use vstd::prelude::*;

use crate::block::{Block, BlockData, BlockId, BlockName};
use crate::chunk::{spec_deindex, ChunkData, CHUNK_VOLUME};
use crate::coords::{BlockPos, ChunkPos, CHUNK_SIZE_INT};
use crate::registry::{catalog_index_of, catalog_name, BlockRegistry, BEDROCK, DIRT, GRASS, STONE};

verus! {

/// Catalog positions of the block types that terrain uses.
pub const GRASS_INDEX: u16 = 0;

pub const DIRT_INDEX: u16 = 1;

pub const STONE_INDEX: u16 = 3;

/// Number of columns in a chunk: one surface height per `(x, z)` offset.
pub const CHUNK_COLUMNS: usize = 1024;

/// The terrain rule. `surface` is the column's surface height: the lowest
/// `y` at or above which the column is open. Below `y = 0` is empty, `y = 0`
/// is grass; above it, cells more than ten below the surface are stone, cells
/// two to ten below are dirt, the cell just below is grass, and the rest is
/// empty. The result is a catalog position, or `None` for air.
pub open spec fn terrain_kind(y: int, surface: int) -> Option<nat> {
    if y < 0 {
        None
    } else if y == 0 {
        Some(GRASS_INDEX as nat)
    } else if y < surface - 10 {
        Some(STONE_INDEX as nat)
    } else if y < surface - 1 {
        Some(DIRT_INDEX as nat)
    } else if y < surface {
        Some(GRASS_INDEX as nat)
    } else {
        None
    }
}

/// `b` is a fresh block of catalog position `kind`, or air for `None`.
pub open spec fn is_block_of_kind(b: BlockData, kind: Option<nat>) -> bool {
    match kind {
        None => b.0 is None,
        Some(i) => match b.0 {
            Some(block) => block.id.index() == i && block.dynamic_data is None,
            None => false,
        },
    }
}

/// Position of column `(x, z)` in a chunk's surface heights.
pub open spec fn column_index(o: BlockPos) -> int {
    o.x + o.z * 32
}

/// Generates the overworld: terrain is a pure function of the block
/// position and its column's surface height.
#[derive(Clone, Copy, Debug)]
pub struct OverworldGenerator;

impl OverworldGenerator {
    fn block_named(registry: &BlockRegistry, name: &'static str, index: u16) -> (r: BlockData)
        requires
            index < 4,
            name@ == catalog_name(index as int),
            catalog_index_of(name@) == Some(index as nat),
        ensures
            is_block_of_kind(r, Some(index as nat)),
    {
        match registry.create_block(&BlockName(name)) {
            Some(block) => BlockData::some(block),
            None => BlockData::none(),
        }
    }

    /// The cell at `block_pos` in a column whose surface height is `surface_height`.
    pub fn terrain_noise(&self, block_pos: BlockPos, surface_height: i32, registry: &BlockRegistry) -> (r:
        BlockData)
        ensures
            is_block_of_kind(r, terrain_kind(block_pos.y as int, surface_height as int)),
    {
        proof {
            reveal_strlit("excavatemanufacturate/grass");
            reveal_strlit("excavatemanufacturate/dirt");
            reveal_strlit("excavatemanufacturate/bedrock");
            reveal_strlit("excavatemanufacturate/stone");
            assert(GRASS@.len() != DIRT@.len());
            assert(GRASS@[22] != STONE@[22]);
            assert(DIRT@.len() != STONE@.len());
            assert(BEDROCK@.len() != STONE@.len());
        }
        let y = block_pos.y as i64;
        let surface = surface_height as i64;
        if y < 0 {
            BlockData::none()
        } else if y == 0 {
            OverworldGenerator::block_named(registry, GRASS, GRASS_INDEX)
        } else if y < surface - 10 {
            OverworldGenerator::block_named(registry, STONE, STONE_INDEX)
        } else if y < surface - 1 {
            OverworldGenerator::block_named(registry, DIRT, DIRT_INDEX)
        } else if y < surface {
            OverworldGenerator::block_named(registry, GRASS, GRASS_INDEX)
        } else {
            BlockData::none()
        }
    }

    /// The chunk at `chunk_pos`, given the surface height of each of its
    /// columns (`surface_heights[x + 32 * z]`).
    pub fn generate_chunk(
        &self,
        chunk_pos: ChunkPos,
        surface_heights: &Vec<i32>,
        registry: &BlockRegistry,
    ) -> (r: ChunkData)
        requires
            chunk_pos.in_range(),
            surface_heights@.len() == CHUNK_COLUMNS,
        ensures
            forall|i: int|
                0 <= i < CHUNK_VOLUME ==> is_block_of_kind(
                    #[trigger] r@[i],
                    terrain_kind(
                        chunk_pos.y * CHUNK_SIZE_INT + spec_deindex(i).y,
                        surface_heights@[column_index(spec_deindex(i))] as int,
                    ),
                ),
    {
        let origin = BlockPos::from(chunk_pos);
        let generator = *self;
        let supplier = |o: BlockPos| -> (b: BlockData)
            requires
                o.is_chunk_offset(),
            ensures
                is_block_of_kind(
                    b,
                    terrain_kind(
                        chunk_pos.y * CHUNK_SIZE_INT + o.y,
                        surface_heights@[column_index(o)] as int,
                    ),
                ),
            {
                let p = BlockPos { x: origin.x + o.x, y: origin.y + o.y, z: origin.z + o.z };
                let h = surface_heights[(o.x + o.z * 32) as usize];
                generator.terrain_noise(p, h, registry)
            };
        ChunkData::with_data(supplier)
    }
}

/// Terrain is deterministic: two cells produced for the same block position
/// and surface height are identical, block type included.
pub proof fn lemma_terrain_deterministic(p: BlockPos, surface: i32, r1: BlockData, r2: BlockData)
    requires
        is_block_of_kind(r1, terrain_kind(p.y as int, surface as int)),
        is_block_of_kind(r2, terrain_kind(p.y as int, surface as int)),
    ensures
        r1 == r2,
{
    match (r1.0, r2.0) {
        (Some(b1), Some(b2)) => {
            BlockId::lemma_index_injective(b1.id, b2.id);
        },
        _ => {},
    }
}

} // verus!
