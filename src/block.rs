use vstd::prelude::*;

verus! {

/// Number of block types in the catalog.
pub const BLOCK_TYPE_COUNT: u16 = 4;

/// The name under which a block type is registered.
#[derive(Clone, Copy, Debug)]
pub struct BlockName(pub &'static str);

/// A handle into the block registry. Only the registry issues them, so every
/// id names a registered block type.
#[derive(Clone, Copy, PartialEq, Eq, Structural, Hash, Debug)]
pub struct BlockId(u16);

impl BlockId {
    #[verifier::type_invariant]
    spec fn registered(self) -> bool {
        self.0 < BLOCK_TYPE_COUNT
    }

    /// The position of this id's block type in the catalog.
    pub closed spec fn index(self) -> nat {
        self.0 as nat
    }

    /// Ids with the same catalog position are the same id.
    pub proof fn lemma_index_injective(a: BlockId, b: BlockId)
        ensures
            a.index() == b.index() ==> a == b,
    {
    }

    pub(crate) fn from_index(i: u16) -> (r: BlockId)
        requires
            i < BLOCK_TYPE_COUNT,
        ensures
            r.index() == i,
    {
        BlockId(i)
    }

    /// The position of this id's block type in the catalog.
    pub fn as_index(&self) -> (r: usize)
        ensures
            r == self.index(),
            r < BLOCK_TYPE_COUNT,
    {
        proof {
            use_type_invariant(self);
        }
        self.0 as usize
    }
}

/// One placed block.
#[derive(Clone, Copy, PartialEq, Eq, Structural, Debug)]
pub struct Block {
    /// Points at the static data shared by all blocks of this type.
    pub id: BlockId,
    /// Points at per-instance state, for blocks that have any.
    pub dynamic_data: Option<u64>,
}

impl Block {
    /// This block with per-instance state attached.
    pub fn with_dynamic_data(self, entity: u64) -> (r: Block)
        ensures
            r == (Block { id: self.id, dynamic_data: Some(entity) }),
    {
        Block { id: self.id, dynamic_data: Some(entity) }
    }
}

/// The content of one cell: a block, or air.
#[derive(Clone, Copy, PartialEq, Eq, Structural, Debug)]
pub struct BlockData(pub Option<Block>);

impl BlockData {
    /// A cell holding `block`.
    pub fn some(block: Block) -> (r: BlockData)
        ensures
            r == BlockData(Some(block)),
    {
        BlockData(Some(block))
    }

    /// An empty (air) cell.
    pub fn none() -> (r: BlockData)
        ensures
            r == BlockData(None),
    {
        BlockData(None)
    }

    pub open spec fn spec_is_some(self) -> bool {
        self.0 is Some
    }

    /// Whether a block occupies the cell.
    pub fn is_some(&self) -> (r: bool)
        ensures
            r == self.spec_is_some(),
    {
        self.0.is_some()
    }

    /// Whether the cell is air.
    pub fn is_none(&self) -> (r: bool)
        ensures
            r == !self.spec_is_some(),
    {
        self.0.is_none()
    }
}

} // verus!
