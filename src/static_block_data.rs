use vstd::prelude::*;

verus! {

/// The three classes of block face that may carry their own texture.
#[derive(Clone, Copy, PartialEq, Eq, Structural, Debug)]
pub enum BlockFace {
    Top,
    Side,
    Bottom,
}

/// A rectangle of the texture atlas, in texels, corners included.
#[derive(Clone, Copy, PartialEq, Eq, Debug)]
pub struct AtlasCoordinates {
    pub min: (u16, u16),
    pub max: (u16, u16),
}

/// Atlas regions of one block type. Sides and bottom fall back to the top region.
#[derive(Clone, Copy, PartialEq, Eq, Debug)]
pub struct BlockTextures {
    pub top: AtlasCoordinates,
    /// Defaults to the top region when unset.
    pub sides: Option<AtlasCoordinates>,
    /// Defaults to the top region when unset.
    pub bottom: Option<AtlasCoordinates>,
}

impl BlockTextures {
    /// Textures that use one region for every face.
    pub fn from_single(atlas_coordinates: AtlasCoordinates) -> (r: BlockTextures)
        ensures
            r == (BlockTextures { top: atlas_coordinates, sides: None, bottom: None }),
    {
        BlockTextures { top: atlas_coordinates, sides: None, bottom: None }
    }

    /// The region drawn on a face of the given class.
    pub open spec fn spec_coords(self, face: BlockFace) -> AtlasCoordinates {
        match face {
            BlockFace::Top => self.top,
            BlockFace::Side => match self.sides {
                Some(c) => c,
                None => self.top,
            },
            BlockFace::Bottom => match self.bottom {
                Some(c) => c,
                None => self.top,
            },
        }
    }

    /// The region drawn on a face of the given class.
    pub fn get_coords(&self, face: BlockFace) -> (r: AtlasCoordinates)
        ensures
            r == self.spec_coords(face),
    {
        match face {
            BlockFace::Top => self.top,
            BlockFace::Side => match self.sides {
                Some(c) => c,
                None => self.top,
            },
            BlockFace::Bottom => match self.bottom {
                Some(c) => c,
                None => self.top,
            },
        }
    }
}

/// The kinds of tool that a block may require.
#[derive(Clone, Copy, PartialEq, Eq, Structural, Debug)]
pub enum ToolType {
    Pickaxe,
}

/// How a block may be broken.
#[derive(Clone, Copy, PartialEq, Eq, Structural, Debug)]
pub enum BlockHardnessLevel {
    /// By hand.
    Hand,
    /// With a tool of the given type and at least the given level.
    Tool(ToolType, u8),
    /// Never.
    Unbreakable,
}

/// Immutable per-type metadata of a block.
#[derive(Clone, Copy, PartialEq, Eq, Debug)]
pub struct StaticBlockData {
    pub textures: BlockTextures,
    pub hardness: BlockHardnessLevel,
}

} // verus!
