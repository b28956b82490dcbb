use vstd::arithmetic::div_mod::*;
use vstd::prelude::*;

use crate::block::BlockData;
use crate::coords::{BlockPos, CHUNK_SIZE, CHUNK_SIZE_INT};

verus! {

/// Number of cells in a chunk.
pub const CHUNK_VOLUME: usize = 32768;

/// Row-major position of an in-chunk offset: `x + y * S + z * S * S`.
pub open spec fn spec_index(o: BlockPos) -> int {
    o.x + o.y * (CHUNK_SIZE as int) + o.z * (CHUNK_SIZE as int) * (CHUNK_SIZE as int)
}

/// The in-chunk offset stored at row-major position `i`.
pub open spec fn spec_deindex(i: int) -> BlockPos {
    BlockPos {
        x: (i % (CHUNK_SIZE as int)) as i32,
        y: ((i / (CHUNK_SIZE as int)) % (CHUNK_SIZE as int)) as i32,
        z: (i / ((CHUNK_SIZE * CHUNK_SIZE) as int)) as i32,
    }
}

/// Number of occupied cells in `s`.
pub open spec fn count_solid(s: Seq<BlockData>) -> nat
    decreases s.len(),
{
    if s.len() == 0 {
        0
    } else {
        count_solid(s.drop_last()) + if s.last().spec_is_some() {
            1nat
        } else {
            0nat
        }
    }
}

/// Row-major positions and in-chunk offsets correspond one to one.
pub proof fn lemma_index_round_trip(i: int, o: BlockPos)
    ensures
        0 <= i < CHUNK_VOLUME ==> spec_deindex(i).is_chunk_offset() && spec_index(spec_deindex(i))
            == i,
        o.is_chunk_offset() ==> 0 <= spec_index(o) < CHUNK_VOLUME && spec_deindex(spec_index(o))
            == o,
{
    if 0 <= i < CHUNK_VOLUME {
        lemma_fundamental_div_mod(i, 32);
        lemma_fundamental_div_mod(i / 32, 32);
        lemma_div_denominator(i, 32, 32);
        lemma_div_pos_is_pos(i, 32);
        lemma_div_by_multiple_is_strongly_ordered(i, 32768, 1024, 32);
    }
    if o.is_chunk_offset() {
        let (x, y, z) = (o.x as int, o.y as int, o.z as int);
        let j = x + y * 32 + z * 32 * 32;
        assert(j == x + 32 * (y + 32 * z));
        lemma_fundamental_div_mod(j, 32);
        lemma_div_denominator(j, 32, 32);
        lemma_div_mod_unique(j, 32, y + 32 * z, x);
        lemma_div_mod_unique(y + 32 * z, 32, z, y);
    }
}

/// Division by `d` recovers the quotient and remainder that built `n`.
proof fn lemma_div_mod_unique(n: int, d: int, q: int, r: int)
    requires
        0 < d,
        0 <= r < d,
        n == q * d + r,
    ensures
        n / d == q,
        n % d == r,
{
    lemma_fundamental_div_mod(n, d);
    lemma_fundamental_div_mod_converse(n, d, q, r);
}

proof fn lemma_count_push(s: Seq<BlockData>, b: BlockData)
    ensures
        count_solid(s.push(b)) == count_solid(s) + if b.spec_is_some() {
            1nat
        } else {
            0nat
        },
{
    assert(s.push(b).drop_last() =~= s);
}

proof fn lemma_count_bounds(s: Seq<BlockData>)
    ensures
        count_solid(s) <= s.len(),
        count_solid(s) == 0 <==> forall|i: int| 0 <= i < s.len() ==> !(#[trigger] s[i]).spec_is_some(),
    decreases s.len(),
{
    if s.len() > 0 {
        lemma_count_bounds(s.drop_last());
        if count_solid(s) == 0 {
            assert forall|i: int| 0 <= i < s.len() implies !(#[trigger] s[i]).spec_is_some() by {
                if i < s.len() - 1 {
                    assert(s[i] == s.drop_last()[i]);
                }
            }
        }
        if forall|i: int| 0 <= i < s.len() ==> !(#[trigger] s[i]).spec_is_some() {
            assert forall|i: int| 0 <= i < s.drop_last().len() implies !(
            #[trigger] s.drop_last()[i]).spec_is_some() by {
                assert(s[i] == s.drop_last()[i]);
            }
            assert(!s[s.len() - 1].spec_is_some());
        }
    }
}

proof fn lemma_count_update(s: Seq<BlockData>, i: int, b: BlockData)
    requires
        0 <= i < s.len(),
    ensures
        count_solid(s.update(i, b)) + (if s[i].spec_is_some() {
            1nat
        } else {
            0nat
        }) == count_solid(s) + (if b.spec_is_some() {
            1nat
        } else {
            0nat
        }),
    decreases s.len(),
{
    if i == s.len() - 1 {
        assert(s.update(i, b).drop_last() =~= s.drop_last());
    } else {
        assert(s.update(i, b).drop_last() =~= s.drop_last().update(i, b));
        lemma_count_update(s.drop_last(), i, b);
    }
}

/// Dense cell storage with the number of occupied cells kept alongside.
struct Cells {
    blocks: Vec<BlockData>,
    num_blocks: u32,
}

impl Cells {
    /// Replaces one cell and updates the count.
    fn set_cell(&mut self, index: usize, block: BlockData)
        requires
            index < old(self).blocks@.len(),
            old(self).blocks@.len() == CHUNK_VOLUME,
            old(self).num_blocks == count_solid(old(self).blocks@),
        ensures
            final(self).blocks@ == old(self).blocks@.update(index as int, block),
            final(self).num_blocks == count_solid(final(self).blocks@),
        no_unwind
    {
        proof {
            lemma_count_update(self.blocks@, index as int, block);
            lemma_count_bounds(self.blocks@);
            lemma_count_bounds(self.blocks@.update(index as int, block));
        }
        let was_some = match &self.blocks[index].0 {
            Some(_) => true,
            None => false,
        };
        let is_some = match &block.0 {
            Some(_) => true,
            None => false,
        };
        if was_some && !is_some {
            // An occupied cell becomes air.
            self.num_blocks = self.num_blocks - 1;
        } else if !was_some && is_some {
            // A block fills an empty cell.
            self.num_blocks = self.num_blocks + 1;
        }
        self.blocks[index] = block;
    }
}

/// The cells of one chunk, densely stored in row-major order, with the number
/// of occupied cells kept alongside.
pub struct ChunkData {
    cells: Cells,
}

impl View for ChunkData {
    type V = Seq<BlockData>;

    closed spec fn view(&self) -> Seq<BlockData> {
        self.cells.blocks@
    }
}

impl ChunkData {
    #[verifier::type_invariant]
    spec fn counted(self) -> bool {
        &&& self.cells.blocks@.len() == CHUNK_VOLUME
        &&& self.cells.num_blocks == count_solid(self.cells.blocks@)
    }

    /// No cell is occupied.
    pub open spec fn spec_is_empty(&self) -> bool {
        forall|i: int| 0 <= i < CHUNK_VOLUME ==> !(#[trigger] self@[i]).spec_is_some()
    }

    /// Every chunk has exactly `CHUNK_VOLUME` cells.
    pub fn cell_count(&self) -> (r: usize)
        ensures
            r == self@.len(),
            r == CHUNK_VOLUME,
    {
        proof {
            use_type_invariant(self);
        }
        self.cells.blocks.len()
    }

    /// A chunk of air.
    pub fn empty() -> (r: ChunkData)
        ensures
            r@ == Seq::new(CHUNK_VOLUME as nat, |i: int| BlockData(None)),
            r.spec_is_empty(),
    {
        let mut blocks: Vec<BlockData> = Vec::with_capacity(CHUNK_VOLUME);
        let mut i: usize = 0;
        while i < CHUNK_VOLUME
            invariant
                i <= CHUNK_VOLUME,
                blocks@ =~= Seq::new(i as nat, |j: int| BlockData(None)),
                count_solid(blocks@) == 0,
            decreases CHUNK_VOLUME - i,
        {
            proof {
                lemma_count_push(blocks@, BlockData(None));
            }
            blocks.push(BlockData::none());
            i = i + 1;
        }
        ChunkData { cells: Cells { blocks, num_blocks: 0 } }
    }

    /// A chunk whose cell at each in-chunk offset `o` holds `supplier(o)`;
    /// `supplier` is called once per cell, in row-major order.
    pub fn with_data<F: Fn(BlockPos) -> BlockData>(supplier: F) -> (r: ChunkData)
        requires
            forall|o: BlockPos| o.is_chunk_offset() ==> #[trigger] supplier.requires((o,)),
        ensures
            forall|i: int|
                0 <= i < CHUNK_VOLUME ==> supplier.ensures((spec_deindex(i),), #[trigger] r@[i]),
    {
        let mut blocks: Vec<BlockData> = Vec::with_capacity(CHUNK_VOLUME);
        let mut num_blocks: u32 = 0;
        let mut i: usize = 0;
        while i < CHUNK_VOLUME
            invariant
                i <= CHUNK_VOLUME,
                blocks@.len() == i,
                num_blocks == count_solid(blocks@),
                forall|o: BlockPos| o.is_chunk_offset() ==> #[trigger] supplier.requires((o,)),
                forall|j: int|
                    0 <= j < i ==> supplier.ensures((spec_deindex(j),), #[trigger] blocks@[j]),
            decreases CHUNK_VOLUME - i,
        {
            let offset = ChunkData::deindexify(i);
            let data = supplier(offset);
            proof {
                lemma_count_push(blocks@, data);
                lemma_count_bounds(blocks@);
            }
            if data.is_some() {
                num_blocks = num_blocks + 1;
            }
            blocks.push(data);
            i = i + 1;
        }
        ChunkData { cells: Cells { blocks, num_blocks } }
    }

    /// Whether no cell is occupied.
    pub fn is_empty(&self) -> (r: bool)
        ensures
            r == self.spec_is_empty(),
    {
        proof {
            use_type_invariant(self);
            lemma_count_bounds(self.cells.blocks@);
        }
        assert(self@ == self.cells.blocks@);
        self.cells.num_blocks == 0
    }

    /// The cells in row-major order.
    pub fn get_raw_array(&self) -> (r: &[BlockData])
        ensures
            r@ == self@,
    {
        self.cells.blocks.as_slice()
    }

    /// The row-major position of an in-chunk offset.
    pub fn indexify(offset: BlockPos) -> (r: usize)
        requires
            offset.is_chunk_offset(),
        ensures
            r == spec_index(offset),
            r < CHUNK_VOLUME,
    {
        (offset.z as usize) * CHUNK_SIZE * CHUNK_SIZE + (offset.y as usize) * CHUNK_SIZE
            + offset.x as usize
    }

    /// The in-chunk offset at a row-major position.
    pub fn deindexify(index: usize) -> (r: BlockPos)
        requires
            index < CHUNK_VOLUME,
        ensures
            r == spec_deindex(index as int),
            r.is_chunk_offset(),
    {
        let z = index / (CHUNK_SIZE * CHUNK_SIZE);
        let y = (index % (CHUNK_SIZE * CHUNK_SIZE)) / CHUNK_SIZE;
        let x = index % CHUNK_SIZE;
        assert((index as int % 1024) / 32 == (index as int / 32) % 32);
        BlockPos { x: x as i32, y: y as i32, z: z as i32 }
    }

    /// The cell of the block at world position `block_pos`, found by its in-chunk offset.
    pub fn get(&self, block_pos: BlockPos) -> (r: &BlockData)
        ensures
            *r == self@[spec_index(block_pos.spec_chunk_offset())],
    {
        proof {
            use_type_invariant(self);
        }
        let offset = block_pos.as_chunk_offset();
        &self.cells.blocks[ChunkData::indexify(offset)]
    }

    /// Replaces the cell of the block at world position `block_pos`.
    pub fn set(&mut self, block_pos: BlockPos, block: BlockData)
        ensures
            final(self)@ == old(self)@.update(spec_index(block_pos.spec_chunk_offset()), block),
    {
        proof {
            use_type_invariant(&*self);
        }
        let offset = block_pos.as_chunk_offset();
        let index = ChunkData::indexify(offset);
        self.cells.set_cell(index, block);
    }

    /// The cell at an in-chunk offset.
    pub fn get_from_raw_offset(&self, offset: BlockPos) -> (r: &BlockData)
        requires
            offset.is_chunk_offset(),
        ensures
            *r == self@[spec_index(offset)],
    {
        proof {
            use_type_invariant(self);
        }
        &self.cells.blocks[ChunkData::indexify(offset)]
    }

    /// The cell at `offset`, or `None` when `offset` lies outside the chunk.
    pub fn try_get_from_raw_offset(&self, offset: BlockPos) -> (r: Option<&BlockData>)
        ensures
            match r {
                Some(b) => offset.is_chunk_offset() && *b == self@[spec_index(offset)],
                None => !offset.is_chunk_offset(),
            },
    {
        if 0 <= offset.x && offset.x < CHUNK_SIZE_INT && 0 <= offset.y && offset.y < CHUNK_SIZE_INT
            && 0 <= offset.z && offset.z < CHUNK_SIZE_INT {
            Some(self.get_from_raw_offset(offset))
        } else {
            None
        }
    }
}

} // verus!
