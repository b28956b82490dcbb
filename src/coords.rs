use vstd::prelude::*;

verus! {

/// Edge length of a cubic chunk, in blocks.
pub const CHUNK_SIZE: usize = 32;

/// `CHUNK_SIZE` as a signed block coordinate.
pub const CHUNK_SIZE_INT: i32 = 32;

/// Smallest chunk coordinate that holds an `i32` block coordinate.
pub const MIN_CHUNK_COORD: i32 = -67108864;

/// Largest chunk coordinate that holds an `i32` block coordinate.
pub const MAX_CHUNK_COORD: i32 = 67108863;

/// The chunk coordinate of a block coordinate: floored division by the chunk size.
pub open spec fn chunk_coord(b: int) -> int {
    b / (CHUNK_SIZE as int)
}

/// The in-chunk offset of a block coordinate: floored remainder by the chunk size.
pub open spec fn offset_coord(b: int) -> int {
    b % (CHUNK_SIZE as int)
}

/// A chunk coordinate whose blocks all have `i32` coordinates.
pub open spec fn chunk_coord_in_range(c: int) -> bool {
    MIN_CHUNK_COORD <= c <= MAX_CHUNK_COORD
}

/// Floored division and remainder of one block coordinate by the chunk size.
fn floor_div_mod(b: i32) -> (r: (i32, i32))
    ensures
        r.0 == chunk_coord(b as int),
        r.1 == offset_coord(b as int),
        chunk_coord_in_range(r.0 as int),
        0 <= r.1 < CHUNK_SIZE_INT,
        b == r.0 * CHUNK_SIZE_INT + r.1,
{
    // Shift into the non-negative range by a multiple of the chunk size, so
    // that unsigned division agrees with floored division.
    let shifted: u64 = ((b as i64) + 2147483648i64) as u64;
    let q: u64 = shifted / 32;
    let m: u64 = shifted % 32;
    assert(shifted as int / 32 == b as int / 32 + 67108864);
    assert(shifted as int % 32 == b as int % 32);
    ((q as i64 - 67108864i64) as i32, m as i32)
}

/// An integer position of one voxel in world space.
#[derive(Clone, Copy, PartialEq, Eq, Structural, Hash, Debug)]
pub struct BlockPos {
    pub x: i32,
    pub y: i32,
    pub z: i32,
}

/// An integer position of one chunk: the block position divided by the chunk size, floored.
#[derive(Clone, Copy, PartialEq, Eq, Structural, Hash, Debug)]
pub struct ChunkPos {
    pub x: i32,
    pub y: i32,
    pub z: i32,
}

/// A chunk position relative to the observer's chunk.
#[derive(Clone, Copy, PartialEq, Eq, Structural, Debug)]
pub struct LocalChunkPos {
    pub pos: ChunkPos,
}

impl BlockPos {
    pub fn new(x: i32, y: i32, z: i32) -> (r: BlockPos)
        ensures
            r == (BlockPos { x, y, z }),
    {
        BlockPos { x, y, z }
    }

    /// The origin corner of a chunk: each chunk coordinate times the chunk size.
    pub open spec fn spec_origin(c: ChunkPos) -> BlockPos {
        BlockPos {
            x: (c.x * CHUNK_SIZE_INT) as i32,
            y: (c.y * CHUNK_SIZE_INT) as i32,
            z: (c.z * CHUNK_SIZE_INT) as i32,
        }
    }

    /// The origin corner of `chunk_pos`.
    pub fn from(chunk_pos: ChunkPos) -> (r: BlockPos)
        requires
            chunk_pos.in_range(),
        ensures
            r == BlockPos::spec_origin(chunk_pos),
            r.x == chunk_pos.x * CHUNK_SIZE_INT,
            r.y == chunk_pos.y * CHUNK_SIZE_INT,
            r.z == chunk_pos.z * CHUNK_SIZE_INT,
    {
        BlockPos {
            x: chunk_pos.x * CHUNK_SIZE_INT,
            y: chunk_pos.y * CHUNK_SIZE_INT,
            z: chunk_pos.z * CHUNK_SIZE_INT,
        }
    }

    /// The floored remainder of each coordinate by the chunk size.
    pub open spec fn spec_chunk_offset(self) -> BlockPos {
        BlockPos {
            x: offset_coord(self.x as int) as i32,
            y: offset_coord(self.y as int) as i32,
            z: offset_coord(self.z as int) as i32,
        }
    }

    /// Every coordinate lies in `[0, CHUNK_SIZE)`.
    pub open spec fn is_chunk_offset(self) -> bool {
        &&& 0 <= self.x < CHUNK_SIZE_INT
        &&& 0 <= self.y < CHUNK_SIZE_INT
        &&& 0 <= self.z < CHUNK_SIZE_INT
    }

    /// The position of this block inside its chunk; negative coordinates wrap
    /// into `[0, CHUNK_SIZE)`.
    pub fn as_chunk_offset(self) -> (r: BlockPos)
        ensures
            r == self.spec_chunk_offset(),
            r.is_chunk_offset(),
    {
        let (_, x) = floor_div_mod(self.x);
        let (_, y) = floor_div_mod(self.y);
        let (_, z) = floor_div_mod(self.z);
        BlockPos { x, y, z }
    }

    /// Some offset coordinate is `0` or `CHUNK_SIZE - 1`.
    pub open spec fn spec_is_on_chunk_border(self) -> bool {
        let o = self.spec_chunk_offset();
        ||| o.x == 0 || o.y == 0 || o.z == 0
        ||| o.x == CHUNK_SIZE_INT - 1 || o.y == CHUNK_SIZE_INT - 1 || o.z == CHUNK_SIZE_INT - 1
    }

    /// Whether this block lies on a face of its chunk.
    pub fn is_on_chunk_border(self) -> (r: bool)
        ensures
            r == self.spec_is_on_chunk_border(),
    {
        let o = self.as_chunk_offset();
        o.x == 0 || o.y == 0 || o.z == 0 || o.x == CHUNK_SIZE_INT - 1 || o.y == CHUNK_SIZE_INT
            - 1 || o.z == CHUNK_SIZE_INT - 1
    }

    /// The chunks whose meshes depend on this block, in order: its own chunk,
    /// then for x, y and z in turn the next chunk if the block lies on the
    /// positive face and the previous chunk if it lies on the negative face.
    pub open spec fn spec_touched_chunk_positions(self) -> Seq<ChunkPos> {
        let c = ChunkPos::spec_from(self);
        let o = self.spec_chunk_offset();
        let top = CHUNK_SIZE_INT - 1;
        seq![c]
            + (if o.x == top { seq![c.spec_add(1, 0, 0)] } else { seq![] })
            + (if o.x == 0 { seq![c.spec_add(-1, 0, 0)] } else { seq![] })
            + (if o.y == top { seq![c.spec_add(0, 1, 0)] } else { seq![] })
            + (if o.y == 0 { seq![c.spec_add(0, -1, 0)] } else { seq![] })
            + (if o.z == top { seq![c.spec_add(0, 0, 1)] } else { seq![] })
            + (if o.z == 0 { seq![c.spec_add(0, 0, -1)] } else { seq![] })
    }

    /// The owning chunk and each neighbouring chunk whose shared face this block touches.
    pub fn get_touched_chunk_positions(self) -> (r: Vec<ChunkPos>)
        ensures
            r@ == self.spec_touched_chunk_positions(),
            1 <= r@.len() <= 4,
    {
        let c = ChunkPos::from(self);
        let o = self.as_chunk_offset();
        let top = CHUNK_SIZE_INT - 1;
        let mut r: Vec<ChunkPos> = Vec::with_capacity(7);
        r.push(c);
        let ghost s0 = r@;
        if o.x == top {
            r.push(ChunkPos { x: c.x + 1, y: c.y, z: c.z });
        }
        let ghost s1 = r@;
        if o.x == 0 {
            r.push(ChunkPos { x: c.x - 1, y: c.y, z: c.z });
        }
        let ghost s2 = r@;
        if o.y == top {
            r.push(ChunkPos { x: c.x, y: c.y + 1, z: c.z });
        }
        let ghost s3 = r@;
        if o.y == 0 {
            r.push(ChunkPos { x: c.x, y: c.y - 1, z: c.z });
        }
        let ghost s4 = r@;
        if o.z == top {
            r.push(ChunkPos { x: c.x, y: c.y, z: c.z + 1 });
        }
        let ghost s5 = r@;
        if o.z == 0 {
            r.push(ChunkPos { x: c.x, y: c.y, z: c.z - 1 });
        }
        assert(r@ =~= self.spec_touched_chunk_positions());
        r
    }

    /// Component-wise sum.
    pub fn add(self, rhs: BlockPos) -> (r: BlockPos)
        requires
            i32::MIN <= self.x + rhs.x <= i32::MAX,
            i32::MIN <= self.y + rhs.y <= i32::MAX,
            i32::MIN <= self.z + rhs.z <= i32::MAX,
        ensures
            r.x == self.x + rhs.x,
            r.y == self.y + rhs.y,
            r.z == self.z + rhs.z,
    {
        BlockPos { x: self.x + rhs.x, y: self.y + rhs.y, z: self.z + rhs.z }
    }

    /// Component-wise difference.
    pub fn sub(self, rhs: BlockPos) -> (r: BlockPos)
        requires
            i32::MIN <= self.x - rhs.x <= i32::MAX,
            i32::MIN <= self.y - rhs.y <= i32::MAX,
            i32::MIN <= self.z - rhs.z <= i32::MAX,
        ensures
            r.x == self.x - rhs.x,
            r.y == self.y - rhs.y,
            r.z == self.z - rhs.z,
    {
        BlockPos { x: self.x - rhs.x, y: self.y - rhs.y, z: self.z - rhs.z }
    }
}

impl ChunkPos {
    pub fn new(x: i32, y: i32, z: i32) -> (r: ChunkPos)
        ensures
            r == (ChunkPos { x, y, z }),
    {
        ChunkPos { x, y, z }
    }

    /// Every coordinate is one that an `i32` block coordinate can fall in.
    pub open spec fn in_range(self) -> bool {
        &&& chunk_coord_in_range(self.x as int)
        &&& chunk_coord_in_range(self.y as int)
        &&& chunk_coord_in_range(self.z as int)
    }

    /// Whether every coordinate is one that an `i32` block coordinate can fall in.
    pub fn is_in_range(&self) -> (r: bool)
        ensures
            r == self.in_range(),
    {
        MIN_CHUNK_COORD <= self.x && self.x <= MAX_CHUNK_COORD && MIN_CHUNK_COORD <= self.y
            && self.y <= MAX_CHUNK_COORD && MIN_CHUNK_COORD <= self.z && self.z <= MAX_CHUNK_COORD
    }

    /// The chunk holding a block.
    pub open spec fn spec_from(b: BlockPos) -> ChunkPos {
        ChunkPos {
            x: chunk_coord(b.x as int) as i32,
            y: chunk_coord(b.y as int) as i32,
            z: chunk_coord(b.z as int) as i32,
        }
    }

    /// The chunk holding `block_pos` (floored division, also for negative coordinates).
    pub fn from(block_pos: BlockPos) -> (r: ChunkPos)
        ensures
            r == ChunkPos::spec_from(block_pos),
            r.in_range(),
    {
        let (x, _) = floor_div_mod(block_pos.x);
        let (y, _) = floor_div_mod(block_pos.y);
        let (z, _) = floor_div_mod(block_pos.z);
        ChunkPos { x, y, z }
    }

    /// This position moved by a whole number of chunks along each axis.
    pub open spec fn spec_add(self, dx: int, dy: int, dz: int) -> ChunkPos {
        ChunkPos {
            x: (self.x + dx) as i32,
            y: (self.y + dy) as i32,
            z: (self.z + dz) as i32,
        }
    }

    /// Component-wise sum.
    pub fn add(self, rhs: ChunkPos) -> (r: ChunkPos)
        requires
            i32::MIN <= self.x + rhs.x <= i32::MAX,
            i32::MIN <= self.y + rhs.y <= i32::MAX,
            i32::MIN <= self.z + rhs.z <= i32::MAX,
        ensures
            r == self.spec_add(rhs.x as int, rhs.y as int, rhs.z as int),
            r.x == self.x + rhs.x,
            r.y == self.y + rhs.y,
            r.z == self.z + rhs.z,
    {
        ChunkPos { x: self.x + rhs.x, y: self.y + rhs.y, z: self.z + rhs.z }
    }

    /// Component-wise difference.
    pub fn sub(self, rhs: ChunkPos) -> (r: ChunkPos)
        requires
            i32::MIN <= self.x - rhs.x <= i32::MAX,
            i32::MIN <= self.y - rhs.y <= i32::MAX,
            i32::MIN <= self.z - rhs.z <= i32::MAX,
        ensures
            r == self.spec_add(-rhs.x, -rhs.y, -rhs.z),
            r.x == self.x - rhs.x,
            r.y == self.y - rhs.y,
            r.z == self.z - rhs.z,
    {
        ChunkPos { x: self.x - rhs.x, y: self.y - rhs.y, z: self.z - rhs.z }
    }

    /// Squared Euclidean distance between two chunk positions.
    pub open spec fn spec_distance_squared(self, other: ChunkPos) -> int {
        (self.x - other.x) * (self.x - other.x) + (self.y - other.y) * (self.y - other.y) + (
        self.z - other.z) * (self.z - other.z)
    }
}

impl LocalChunkPos {
    /// `chunk_pos_world` seen from the observer's chunk `player_chunk_pos`.
    pub fn from(chunk_pos_world: ChunkPos, player_chunk_pos: ChunkPos) -> (r: LocalChunkPos)
        requires
            i32::MIN <= chunk_pos_world.x - player_chunk_pos.x <= i32::MAX,
            i32::MIN <= chunk_pos_world.y - player_chunk_pos.y <= i32::MAX,
            i32::MIN <= chunk_pos_world.z - player_chunk_pos.z <= i32::MAX,
        ensures
            r.pos.x == chunk_pos_world.x - player_chunk_pos.x,
            r.pos.y == chunk_pos_world.y - player_chunk_pos.y,
            r.pos.z == chunk_pos_world.z - player_chunk_pos.z,
    {
        LocalChunkPos { pos: chunk_pos_world.sub(player_chunk_pos) }
    }
}

/// For every block position `p`, the origin of `p`'s chunk lies at or below
/// `p` on each axis, and `p` minus that origin is `p`'s in-chunk offset, which
/// lies in `[0, CHUNK_SIZE)`.
pub proof fn lemma_chunk_round_trip(p: BlockPos)
    ensures
        ChunkPos::spec_from(p).in_range(),
        BlockPos::spec_origin(ChunkPos::spec_from(p)).x <= p.x,
        BlockPos::spec_origin(ChunkPos::spec_from(p)).y <= p.y,
        BlockPos::spec_origin(ChunkPos::spec_from(p)).z <= p.z,
        p.x - BlockPos::spec_origin(ChunkPos::spec_from(p)).x == p.spec_chunk_offset().x,
        p.y - BlockPos::spec_origin(ChunkPos::spec_from(p)).y == p.spec_chunk_offset().y,
        p.z - BlockPos::spec_origin(ChunkPos::spec_from(p)).z == p.spec_chunk_offset().z,
        p.spec_chunk_offset().is_chunk_offset(),
{
    lemma_coord_round_trip(p.x);
    lemma_coord_round_trip(p.y);
    lemma_coord_round_trip(p.z);
}

proof fn lemma_coord_round_trip(b: i32)
    ensures
        chunk_coord_in_range(chunk_coord(b as int)),
        i32::MIN <= chunk_coord(b as int) * CHUNK_SIZE_INT <= b,
        b - chunk_coord(b as int) * CHUNK_SIZE_INT == offset_coord(b as int),
        0 <= offset_coord(b as int) < CHUNK_SIZE_INT,
{
}

} // verus!
