use vstd::prelude::*;
use vstd::string::*;
use vstd::utf8::*;

use crate::block::{Block, BlockId, BlockName, BLOCK_TYPE_COUNT};
use crate::static_block_data::{
    AtlasCoordinates, BlockHardnessLevel, BlockTextures, StaticBlockData, ToolType,
};

verus! {

/// Registered block names, in catalog order.
pub const GRASS: &'static str = "excavatemanufacturate/grass";

pub const DIRT: &'static str = "excavatemanufacturate/dirt";

pub const BEDROCK: &'static str = "excavatemanufacturate/bedrock";

pub const STONE: &'static str = "excavatemanufacturate/stone";

/// The name of the `i`-th block type of the catalog; ids follow this order.
pub open spec fn catalog_name(i: int) -> Seq<char> {
    if i == 0 {
        GRASS@
    } else if i == 1 {
        DIRT@
    } else if i == 2 {
        BEDROCK@
    } else {
        STONE@
    }
}

/// The catalog position of the block type called `name`, if it is registered.
pub open spec fn catalog_index_of(name: Seq<char>) -> Option<nat> {
    if name == catalog_name(0) {
        Some(0)
    } else if name == catalog_name(1) {
        Some(1)
    } else if name == catalog_name(2) {
        Some(2)
    } else if name == catalog_name(3) {
        Some(3)
    } else {
        None
    }
}

pub open spec fn spec_atlas(min: (u16, u16), max: (u16, u16)) -> AtlasCoordinates {
    AtlasCoordinates { min, max }
}

pub open spec fn spec_single(c: AtlasCoordinates) -> BlockTextures {
    BlockTextures { top: c, sides: None, bottom: None }
}

/// The static data of the `i`-th block type of the catalog.
pub open spec fn catalog_data(i: int) -> StaticBlockData {
    if i == 0 {
        StaticBlockData {
            textures: BlockTextures {
                top: spec_atlas((0, 0), (15, 15)),
                sides: Some(spec_atlas((0, 16), (15, 31))),
                bottom: Some(spec_atlas((0, 32), (15, 47))),
            },
            hardness: BlockHardnessLevel::Hand,
        }
    } else if i == 1 {
        StaticBlockData {
            textures: spec_single(spec_atlas((0, 32), (15, 47))),
            hardness: BlockHardnessLevel::Hand,
        }
    } else if i == 2 {
        StaticBlockData {
            textures: spec_single(spec_atlas((16, 16), (31, 31))),
            hardness: BlockHardnessLevel::Unbreakable,
        }
    } else {
        StaticBlockData {
            textures: spec_single(spec_atlas((16, 0), (31, 15))),
            hardness: BlockHardnessLevel::Tool(ToolType::Pickaxe, 0),
        }
    }
}

fn atlas(min: (u16, u16), max: (u16, u16)) -> (r: AtlasCoordinates)
    ensures
        r == spec_atlas(min, max),
{
    AtlasCoordinates { min, max }
}

fn catalog_entry(i: u16) -> (r: (BlockName, StaticBlockData))
    requires
        i < BLOCK_TYPE_COUNT,
    ensures
        r.0.0@ == catalog_name(i as int),
        r.1 == catalog_data(i as int),
{
    if i == 0 {
        let textures = BlockTextures {
            top: atlas((0, 0), (15, 15)),
            sides: Some(atlas((0, 16), (15, 31))),
            bottom: Some(atlas((0, 32), (15, 47))),
        };
        (BlockName(GRASS), StaticBlockData { textures, hardness: BlockHardnessLevel::Hand })
    } else if i == 1 {
        let textures = BlockTextures::from_single(atlas((0, 32), (15, 47)));
        (BlockName(DIRT), StaticBlockData { textures, hardness: BlockHardnessLevel::Hand })
    } else if i == 2 {
        let textures = BlockTextures::from_single(atlas((16, 16), (31, 31)));
        (BlockName(BEDROCK), StaticBlockData { textures, hardness: BlockHardnessLevel::Unbreakable })
    } else {
        let textures = BlockTextures::from_single(atlas((16, 0), (31, 15)));
        (
            BlockName(STONE),
            StaticBlockData { textures, hardness: BlockHardnessLevel::Tool(ToolType::Pickaxe, 0) },
        )
    }
}

/// Whether two strings hold the same characters.
fn str_eq(a: &str, b: &str) -> (r: bool)
    ensures
        r == (a@ == b@),
{
    let ab = a.as_bytes();
    let bb = b.as_bytes();
    proof {
        encode_utf8_decode_utf8(a@);
        encode_utf8_decode_utf8(b@);
    }
    if ab.len() != bb.len() {
        return false;
    }
    let mut i: usize = 0;
    while i < ab.len()
        invariant
            ab@ == a.spec_bytes(),
            bb@ == b.spec_bytes(),
            ab@.len() == bb@.len(),
            i <= ab@.len(),
            forall|j: int| 0 <= j < i ==> ab@[j] == bb@[j],
        decreases ab@.len() - i,
    {
        if ab[i] != bb[i] {
            return false;
        }
        i = i + 1;
    }
    assert(ab@ =~= bb@);
    true
}

/// The catalog of block types: each name gets a dense id in catalog order,
/// with its static data, together with the texture atlas's size in texels.
pub struct BlockRegistry {
    block_names: Vec<BlockName>,
    static_block_data: Vec<StaticBlockData>,
    atlas_size: (usize, usize),
}

impl BlockRegistry {
    #[verifier::type_invariant]
    spec fn holds_catalog(self) -> bool {
        &&& self.block_names@.len() == BLOCK_TYPE_COUNT
        &&& self.static_block_data@.len() == BLOCK_TYPE_COUNT
        &&& forall|i: int|
            0 <= i < BLOCK_TYPE_COUNT ==> #[trigger] self.block_names@[i].0@ == catalog_name(i)
        &&& forall|i: int|
            0 <= i < BLOCK_TYPE_COUNT ==> #[trigger] self.static_block_data@[i] == catalog_data(i)
    }

    /// Width and height of the texture atlas, in texels.
    pub closed spec fn spec_atlas_size(&self) -> (usize, usize) {
        self.atlas_size
    }

    /// Registers the catalog's block types in order, for an atlas of the given size.
    pub fn create(atlas_size: (usize, usize)) -> (r: BlockRegistry)
        ensures
            r.spec_atlas_size() == atlas_size,
    {
        let mut block_names: Vec<BlockName> = Vec::with_capacity(4);
        let mut static_block_data: Vec<StaticBlockData> = Vec::with_capacity(4);
        let mut next_block_id: u16 = 0;
        while next_block_id < BLOCK_TYPE_COUNT
            invariant
                next_block_id <= BLOCK_TYPE_COUNT,
                block_names@.len() == next_block_id,
                static_block_data@.len() == next_block_id,
                forall|i: int| 0 <= i < next_block_id ==> #[trigger] block_names@[i].0@ == catalog_name(i),
                forall|i: int|
                    0 <= i < next_block_id ==> #[trigger] static_block_data@[i] == catalog_data(i),
            decreases BLOCK_TYPE_COUNT - next_block_id,
        {
            let (name, data) = catalog_entry(next_block_id);
            block_names.push(name);
            static_block_data.push(data);
            next_block_id = next_block_id + 1;
        }
        BlockRegistry { block_names, static_block_data, atlas_size }
    }

    /// The id registered under `name`.
    pub fn get_block_id(&self, name: &BlockName) -> (r: Option<BlockId>)
        ensures
            match r {
                Some(id) => catalog_index_of(name.0@) == Some(id.index()),
                None => catalog_index_of(name.0@) is None,
            },
    {
        proof {
            use_type_invariant(self);
        }
        let mut i: u16 = 0;
        while i < BLOCK_TYPE_COUNT
            invariant
                i <= BLOCK_TYPE_COUNT,
                self.block_names@.len() == BLOCK_TYPE_COUNT,
                forall|j: int|
                    0 <= j < BLOCK_TYPE_COUNT ==> #[trigger] self.block_names@[j].0@ == catalog_name(j),
                forall|j: int| 0 <= j < i ==> catalog_name(j) != name.0@,
            decreases BLOCK_TYPE_COUNT - i,
        {
            if str_eq(self.block_names[i as usize].0, name.0) {
                return Some(BlockId::from_index(i));
            }
            i = i + 1;
        }
        None
    }

    /// A fresh block of the type called `name`, without per-instance state.
    pub fn create_block(&self, name: &BlockName) -> (r: Option<Block>)
        ensures
            match r {
                Some(b) => catalog_index_of(name.0@) == Some(b.id.index()) && b.dynamic_data
                    is None,
                None => catalog_index_of(name.0@) is None,
            },
    {
        match self.get_block_id(name) {
            Some(id) => Some(Block { id, dynamic_data: None }),
            None => None,
        }
    }

    /// The static data of the block type `id`.
    pub fn get_block_data(&self, id: BlockId) -> (r: &StaticBlockData)
        ensures
            *r == catalog_data(id.index() as int),
    {
        proof {
            use_type_invariant(self);
        }
        &self.static_block_data[id.as_index()]
    }

    /// Width and height of the texture atlas, in texels.
    pub fn atlas_size(&self) -> (r: (usize, usize))
        ensures
            r == self.spec_atlas_size(),
    {
        self.atlas_size
    }
}

} // verus!
